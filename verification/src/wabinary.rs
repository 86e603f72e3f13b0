use vstd::prelude::*;
use vstd::utf8::*;

use crate::binary_node::{
    attrs_distinct, attrs_map, content_view, content_wf, insert_attr, node_view, node_wf, BinaryNode, ContentView,
    NodeContent, NodeView,
};
use crate::error::BinaryNodeError;
use crate::binary_node::{permuted, sort_attrs, sorted_attr_order};
use crate::text::{
    ascii_chars, ascii_string, bytes_to_vec, decimal_chars, decimal_string, parse_unsigned, parse_unsigned_spec,
    push_all, split_once_char, split_once_spec, str_chars, str_concat, str_eq, string_from_utf8,
};

verus! {

broadcast use vstd::utf8::group_utf8_lib;

// ---------------------------------------------------------------------------
// Tags and token dictionaries
// ---------------------------------------------------------------------------

/// Empty list (also the empty string).
pub const TAG_LIST_EMPTY: u8 = 0;
/// First of the four double-byte token dictionaries.
pub const TAG_DICTIONARY_0: u8 = 236;
/// Last of the four double-byte token dictionaries.
pub const TAG_DICTIONARY_3: u8 = 239;
pub const TAG_INTEROP_JID: u8 = 245;
pub const TAG_FB_JID: u8 = 246;
pub const TAG_AD_JID: u8 = 247;
pub const TAG_LIST_8: u8 = 248;
pub const TAG_LIST_16: u8 = 249;
pub const TAG_JID_PAIR: u8 = 250;
pub const TAG_HEX_8: u8 = 251;
pub const TAG_BINARY_8: u8 = 252;
pub const TAG_BINARY_20: u8 = 253;
pub const TAG_BINARY_32: u8 = 254;
pub const TAG_NIBBLE_8: u8 = 255;

/// Tag bytes of the WA binary format that are not single-byte tokens.
#[derive(Debug, Clone, Copy, PartialEq, Eq, Structural)]
pub enum WaTag {
    ListEmpty,
    Dictionary0,
    Dictionary1,
    Dictionary2,
    Dictionary3,
    InteropJid,
    FbJid,
    AdJid,
    List8,
    List16,
    JidPair,
    Hex8,
    Binary8,
    Binary20,
    Binary32,
    Nibble8,
}

/// Byte value of a tag.
pub open spec fn wa_tag_code(t: WaTag) -> u8 {
    match t {
        WaTag::ListEmpty => 0,
        WaTag::Dictionary0 => 236,
        WaTag::Dictionary1 => 237,
        WaTag::Dictionary2 => 238,
        WaTag::Dictionary3 => 239,
        WaTag::InteropJid => 245,
        WaTag::FbJid => 246,
        WaTag::AdJid => 247,
        WaTag::List8 => 248,
        WaTag::List16 => 249,
        WaTag::JidPair => 250,
        WaTag::Hex8 => 251,
        WaTag::Binary8 => 252,
        WaTag::Binary20 => 253,
        WaTag::Binary32 => 254,
        WaTag::Nibble8 => 255,
    }
}

/// The tag a byte stands for, if any.
pub open spec fn wa_tag_of(value: u8) -> Option<WaTag> {
    if value == 0 {
        Some(WaTag::ListEmpty)
    } else if value == 236 {
        Some(WaTag::Dictionary0)
    } else if value == 237 {
        Some(WaTag::Dictionary1)
    } else if value == 238 {
        Some(WaTag::Dictionary2)
    } else if value == 239 {
        Some(WaTag::Dictionary3)
    } else if value == 245 {
        Some(WaTag::InteropJid)
    } else if value == 246 {
        Some(WaTag::FbJid)
    } else if value == 247 {
        Some(WaTag::AdJid)
    } else if value == 248 {
        Some(WaTag::List8)
    } else if value == 249 {
        Some(WaTag::List16)
    } else if value == 250 {
        Some(WaTag::JidPair)
    } else if value == 251 {
        Some(WaTag::Hex8)
    } else if value == 252 {
        Some(WaTag::Binary8)
    } else if value == 253 {
        Some(WaTag::Binary20)
    } else if value == 254 {
        Some(WaTag::Binary32)
    } else if value == 255 {
        Some(WaTag::Nibble8)
    } else {
        None
    }
}

/// Every tag is read back from its own byte.
pub proof fn law_wa_tag_code_roundtrip(t: WaTag)
    ensures
        wa_tag_of(wa_tag_code(t)) == Some(t),
{
}

impl WaTag {
    /// The tag a byte stands for, if any.
    pub fn from_u8(value: u8) -> (r: Option<WaTag>)
        ensures
            r == wa_tag_of(value),
    {
        match value {
            0 => Some(WaTag::ListEmpty),
            236 => Some(WaTag::Dictionary0),
            237 => Some(WaTag::Dictionary1),
            238 => Some(WaTag::Dictionary2),
            239 => Some(WaTag::Dictionary3),
            245 => Some(WaTag::InteropJid),
            246 => Some(WaTag::FbJid),
            247 => Some(WaTag::AdJid),
            248 => Some(WaTag::List8),
            249 => Some(WaTag::List16),
            250 => Some(WaTag::JidPair),
            251 => Some(WaTag::Hex8),
            252 => Some(WaTag::Binary8),
            253 => Some(WaTag::Binary20),
            254 => Some(WaTag::Binary32),
            255 => Some(WaTag::Nibble8),
            _ => None,
        }
    }
}

/// Token dictionaries of the WA binary format: single-byte tokens (index 0 is
/// unused) and up to four double-byte dictionaries.
pub struct TokenTables {
    pub single: Vec<String>,
    pub double: Vec<Vec<String>>,
}

/// Model of the token dictionaries.
pub struct TablesView {
    pub single: Seq<Seq<char>>,
    pub double: Seq<Seq<Seq<char>>>,
}

impl View for TokenTables {
    type V = TablesView;

    open spec fn view(&self) -> TablesView {
        TablesView {
            single: Seq::new(self.single@.len(), |i: int| self.single@[i]@),
            double: Seq::new(
                self.double@.len(),
                |d: int| Seq::new(self.double@[d]@.len(), |i: int| self.double@[d]@[i]@),
            ),
        }
    }
}

impl TokenTables {
    /// Single tokens leave the tag bytes from the first dictionary tag on
    /// free; there are at most four dictionaries of at most 256 tokens.
    pub open spec fn wf(&self) -> bool {
        &&& self.single@.len() <= 236
        &&& self.double@.len() <= 4
        &&& forall|d: int| 0 <= d < self.double@.len() ==> (#[trigger] self.double@[d])@.len() <= 256
    }
}

// ---------------------------------------------------------------------------
// Decoder specification
// ---------------------------------------------------------------------------

/// Reads `n` big-endian bytes at `p`.
pub open spec fn rd_int(s: Seq<u8>, p: int, n: nat) -> Result<(nat, int), BinaryNodeError>
    decreases n,
{
    if n == 0 {
        Ok((0, p))
    } else {
        match rd_int(s, p, (n - 1) as nat) {
            Err(e) => Err(e),
            Ok((v, q)) => if 0 <= q < s.len() {
                Ok((v * 256 + s[q] as nat, q + 1))
            } else {
                Err(BinaryNodeError::UnexpectedEof)
            },
        }
    }
}

/// Reads a 20-bit length at `p` (low nibble of the first byte, then two bytes).
pub open spec fn rd_int20(s: Seq<u8>, p: int) -> Result<(nat, int), BinaryNodeError> {
    if 0 <= p && p + 3 <= s.len() {
        Ok((((s[p] % 16) as nat) * 65536 + (s[p + 1] as nat) * 256 + s[p + 2] as nat, p + 3))
    } else {
        Err(BinaryNodeError::UnexpectedEof)
    }
}

/// Reads a length-prefixed UTF-8 string whose length was read up to `q`.
pub open spec fn rd_utf8(s: Seq<u8>, len: Result<(nat, int), BinaryNodeError>) -> Result<(Seq<char>, int), BinaryNodeError> {
    match len {
        Err(e) => Err(e),
        Ok((n, q)) => if q + n > s.len() {
            Err(BinaryNodeError::UnexpectedEof)
        } else if valid_utf8(s.subrange(q, q + n)) {
            Ok((decode_utf8(s.subrange(q, q + n)), q + n))
        } else {
            Err(BinaryNodeError::InvalidUtf8)
        },
    }
}

/// Reads a list size after list tag `tag` at `p`.
pub open spec fn rd_list_size(s: Seq<u8>, p: int, tag: u8) -> Result<(nat, int), BinaryNodeError> {
    if tag == TAG_LIST_EMPTY {
        Ok((0, p))
    } else if tag == TAG_LIST_8 {
        rd_int(s, p, 1)
    } else if tag == TAG_LIST_16 {
        rd_int(s, p, 2)
    } else {
        Err(BinaryNodeError::InvalidListTag(tag))
    }
}

/// Character of a packed nibble (`Nibble8`) or hexadecimal (`Hex8`) digit.
pub open spec fn unpack_spec(tag: u8, v: u8) -> Result<u8, BinaryNodeError> {
    if tag == TAG_NIBBLE_8 {
        if v <= 9 {
            Ok((48 + v) as u8)
        } else if v == 10 {
            Ok(45)
        } else if v == 11 {
            Ok(46)
        } else if v == 15 {
            Ok(0)
        } else {
            Err(BinaryNodeError::InvalidPackedChar(v))
        }
    } else if tag == TAG_HEX_8 {
        if v <= 9 {
            Ok((48 + v) as u8)
        } else if v <= 15 {
            Ok((65 + v - 10) as u8)
        } else {
            Err(BinaryNodeError::InvalidPackedChar(v))
        }
    } else {
        Err(BinaryNodeError::InvalidListTag(tag))
    }
}

/// Unpacks `n` bytes of packed digits at `p` (high nibble first), appending to `acc`.
pub open spec fn rd_packed(s: Seq<u8>, p: int, tag: u8, n: nat, acc: Seq<u8>) -> Result<(Seq<u8>, int), BinaryNodeError>
    decreases n,
{
    if n == 0 {
        Ok((acc, p))
    } else if !(0 <= p < s.len()) {
        Err(BinaryNodeError::UnexpectedEof)
    } else {
        match unpack_spec(tag, s[p] / 16) {
            Err(e) => Err(e),
            Ok(hi) => match unpack_spec(tag, s[p] % 16) {
                Err(e) => Err(e),
                Ok(lo) => rd_packed(s, p + 1, tag, (n - 1) as nat, acc.push(hi).push(lo)),
            },
        }
    }
}

/// A packed string at `p`: a header byte (digit-pair count, high bit set when
/// the last digit is padding) and the packed pairs.
pub open spec fn rd_packed_string(s: Seq<u8>, p: int, tag: u8) -> Result<(Seq<char>, int), BinaryNodeError> {
    if !(0 <= p < s.len()) {
        Err(BinaryNodeError::UnexpectedEof)
    } else {
        match rd_packed(s, p + 1, tag, (s[p] % 128) as nat, Seq::empty()) {
            Err(e) => Err(e),
            Ok((b, q)) => Ok((
                ascii_chars(
                    if s[p] >= 128 && b.len() > 0 {
                        b.drop_last()
                    } else {
                        b
                    },
                ),
                q,
            )),
        }
    }
}

/// Server of an AD JID domain type.
pub open spec fn ad_jid_server(domain_type: u8) -> Seq<char> {
    if domain_type == 1 {
        "lid"@
    } else if domain_type == 128 {
        "hosted"@
    } else if domain_type == 129 {
        "hosted.lid"@
    } else {
        "s.whatsapp.net"@
    }
}

/// `user[:device]@server`.
pub open spec fn jid_encode_spec(user: Seq<char>, server: Seq<char>, device: Option<u16>) -> Seq<char> {
    match device {
        Some(d) => user + seq![':'] + decimal_chars(d as nat) + seq!['@'] + server,
        None => user + seq!['@'] + server,
    }
}

/// Reads a tag byte at `p` and the string it introduces.
pub open spec fn string_at(t: TablesView, s: Seq<u8>, p: int) -> Result<(Seq<char>, int), BinaryNodeError>
    decreases s.len() - p, 0int,
{
    if 0 <= p < s.len() {
        real_string(t, s, p + 1, s[p])
    } else {
        Err(BinaryNodeError::UnexpectedEof)
    }
}

/// Reads the string introduced by tag `tag`, its body starting at `p`.
pub open spec fn real_string(t: TablesView, s: Seq<u8>, p: int, tag: u8) -> Result<(Seq<char>, int), BinaryNodeError>
    decreases s.len() - p, 1int,
{
    if 1 <= tag && (tag as int) < t.single.len() {
        Ok((t.single[tag as int], p))
    } else if TAG_DICTIONARY_0 <= tag && tag <= TAG_DICTIONARY_3 {
        let dict = (tag - TAG_DICTIONARY_0) as u8;
        if !(0 <= p < s.len()) {
            Err(BinaryNodeError::UnexpectedEof)
        } else if (dict as int) >= t.double.len() {
            Err(BinaryNodeError::UnknownTokenDictionary(dict))
        } else if (s[p] as int) >= t.double[dict as int].len() {
            Err(BinaryNodeError::UnknownDoubleToken { dict, index: s[p] })
        } else {
            Ok((t.double[dict as int][s[p] as int], p + 1))
        }
    } else if tag == TAG_LIST_EMPTY {
        Ok((Seq::empty(), p))
    } else if tag == TAG_BINARY_8 {
        rd_utf8(s, rd_int(s, p, 1))
    } else if tag == TAG_BINARY_20 {
        rd_utf8(s, rd_int20(s, p))
    } else if tag == TAG_BINARY_32 {
        rd_utf8(s, rd_int(s, p, 4))
    } else if tag == TAG_JID_PAIR {
        match string_at(t, s, p) {
            Err(e) => Err(e),
            Ok((user, q)) => if q <= p || q > s.len() {
                Err(BinaryNodeError::UnexpectedEof)
            } else {
                match string_at(t, s, q) {
                    Err(e) => Err(e),
                    Ok((server, r)) => if server.len() == 0 {
                        Err(BinaryNodeError::InvalidFrame("invalid jid pair"))
                    } else {
                        Ok((user + seq!['@'] + server, r))
                    },
                }
            },
        }
    } else if tag == TAG_AD_JID {
        if !(0 <= p && p + 2 <= s.len()) {
            Err(BinaryNodeError::UnexpectedEof)
        } else {
            match string_at(t, s, p + 2) {
                Err(e) => Err(e),
                Ok((user, q)) => Ok((
                    jid_encode_spec(
                        user,
                        ad_jid_server(s[p]),
                        if s[p + 1] > 0 {
                            Some(s[p + 1] as u16)
                        } else {
                            None
                        },
                    ),
                    q,
                )),
            }
        }
    } else if tag == TAG_FB_JID {
        match string_at(t, s, p) {
            Err(e) => Err(e),
            Ok((user, q)) => match rd_int(s, q, 2) {
                Err(e) => Err(e),
                Ok((device, q2)) => if q2 <= p || q2 > s.len() {
                    Err(BinaryNodeError::UnexpectedEof)
                } else {
                    match string_at(t, s, q2) {
                        Err(e) => Err(e),
                        Ok((server, r)) => Ok((user + seq![':'] + decimal_chars(device) + seq!['@'] + server, r)),
                    }
                },
            },
        }
    } else if tag == TAG_INTEROP_JID {
        match string_at(t, s, p) {
            Err(e) => Err(e),
            Ok((user, q)) => match rd_int(s, q, 2) {
                Err(e) => Err(e),
                Ok((device, q2)) => match rd_int(s, q2, 2) {
                    Err(e) => Err(e),
                    Ok((integrator, q3)) => if q3 <= p || q3 > s.len() {
                        Err(BinaryNodeError::UnexpectedEof)
                    } else {
                        let (server, r) = match string_at(t, s, q3) {
                            Ok((server, r)) => (server, r),
                            Err(_) => ("interop"@, q3),
                        };
                        Ok((decimal_chars(integrator) + seq!['-'] + user + seq![':'] + decimal_chars(device)
                            + seq!['@'] + server, r))
                    },
                },
            },
        }
    } else if tag == TAG_HEX_8 || tag == TAG_NIBBLE_8 {
        rd_packed_string(s, p, tag)
    } else {
        Err(BinaryNodeError::InvalidSymbolType(tag))
    }
}

/// [`string_at`], kept folded where nodes are read.
#[verifier::opaque]
pub open spec fn node_string(t: TablesView, s: Seq<u8>, p: int) -> Result<(Seq<char>, int), BinaryNodeError> {
    string_at(t, s, p)
}

/// [`real_string`], kept folded where node bodies are read.
#[verifier::opaque]
pub open spec fn body_string(t: TablesView, s: Seq<u8>, p: int, tag: u8) -> Result<(Seq<char>, int), BinaryNodeError> {
    real_string(t, s, p, tag)
}

/// Reads `n` attribute pairs at `p`, inserting each into `m`.
pub open spec fn real_attrs(
    t: TablesView,
    s: Seq<u8>,
    p: int,
    n: nat,
    m: Map<Seq<char>, Seq<char>>,
) -> Result<(Map<Seq<char>, Seq<char>>, int), BinaryNodeError>
    decreases n,
{
    if n == 0 {
        Ok((m, p))
    } else {
        match node_string(t, s, p) {
            Err(e) => Err(e),
            Ok((k, p1)) => match node_string(t, s, p1) {
                Err(e) => Err(e),
                Ok((v, p2)) => real_attrs(t, s, p2, (n - 1) as nat, m.insert(k, v)),
            },
        }
    }
}

/// Whether a tag byte introduces a list.
pub open spec fn is_list_tag_spec(tag: u8) -> bool {
    tag == TAG_LIST_EMPTY || tag == TAG_LIST_8 || tag == TAG_LIST_16
}

/// Reads a list introduced by list tag `tag`, its size starting at `p`.
pub open spec fn real_list(t: TablesView, s: Seq<u8>, p: int, tag: u8) -> Result<(Seq<NodeView>, int), BinaryNodeError>
    decreases s.len() - p, 2int,
{
    match rd_list_size(s, p, tag) {
        Err(e) => Err(e),
        Ok((n, q)) => if q < p || q > s.len() {
            Err(BinaryNodeError::UnexpectedEof)
        } else {
            real_nodes(t, s, q, n, Seq::empty())
        },
    }
}

/// Reads a node body introduced by tag `tag`, its data starting at `p`.
pub open spec fn real_content(t: TablesView, s: Seq<u8>, p: int, tag: u8) -> Result<(ContentView, int), BinaryNodeError>
    decreases s.len() - p, 3int,
{
    if is_list_tag_spec(tag) {
        match real_list(t, s, p, tag) {
            Err(e) => Err(e),
            Ok((ns, r)) => Ok((ContentView::Nodes(ns), r)),
        }
    } else if tag == TAG_BINARY_8 || tag == TAG_BINARY_20 || tag == TAG_BINARY_32 {
        let len = if tag == TAG_BINARY_8 {
            rd_int(s, p, 1)
        } else if tag == TAG_BINARY_20 {
            rd_int20(s, p)
        } else {
            rd_int(s, p, 4)
        };
        match len {
            Err(e) => Err(e),
            Ok((n, q)) => if q + n > s.len() {
                Err(BinaryNodeError::UnexpectedEof)
            } else {
                Ok((ContentView::Bytes(s.subrange(q, q + n)), q + n))
            },
        }
    } else {
        match body_string(t, s, p, tag) {
            Err(e) => Err(e),
            Ok((text, q)) => Ok((ContentView::Bytes(encode_utf8(text)), q)),
        }
    }
}

/// Reads one node at `p`: a list header whose size counts the tag, two
/// entries per attribute and one for a body.
pub open spec fn real_node(t: TablesView, s: Seq<u8>, p: int) -> Result<(NodeView, int), BinaryNodeError>
    decreases s.len() - p, 0int,
{
    if !(0 <= p < s.len()) {
        Err(BinaryNodeError::UnexpectedEof)
    } else {
        match rd_list_size(s, p + 1, s[p]) {
            Err(e) => Err(e),
            Ok((size, q1)) => match node_string(t, s, q1) {
                Err(e) => Err(e),
                Ok((tag, q2)) => if size == 0 || tag.len() == 0 {
                    Err(BinaryNodeError::InvalidFrame("invalid wa node"))
                } else {
                    match real_attrs(t, s, q2, ((size - 1) / 2) as nat, Map::empty()) {
                        Err(e) => Err(e),
                        Ok((attrs, q3)) => if size % 2 == 0 {
                            if !(p < q3 < s.len()) {
                                Err(BinaryNodeError::UnexpectedEof)
                            } else {
                                match real_content(t, s, q3 + 1, s[q3]) {
                                    Err(e) => Err(e),
                                    Ok((c, r)) => Ok((NodeView { tag, attrs, content: c }, r)),
                                }
                            }
                        } else {
                            Ok((NodeView { tag, attrs, content: ContentView::Empty }, q3))
                        },
                    }
                },
            },
        }
    }
}

/// Reads `n` consecutive nodes at `p`, appending them to `acc`.
pub open spec fn real_nodes(t: TablesView, s: Seq<u8>, p: int, n: nat, acc: Seq<NodeView>) -> Result<
    (Seq<NodeView>, int),
    BinaryNodeError,
>
    decreases s.len() - p, 1int,
{
    if n == 0 {
        Ok((acc, p))
    } else {
        match real_node(t, s, p) {
            Err(e) => Err(e),
            Ok((node, q)) => if q <= p || q > s.len() {
                Err(BinaryNodeError::UnexpectedEof)
            } else {
                real_nodes(t, s, q, (n - 1) as nat, acc.push(node))
            },
        }
    }
}

/// Result of decoding a whole uncompressed payload.
pub open spec fn spec_decode_real_body(t: TablesView, s: Seq<u8>) -> Result<NodeView, BinaryNodeError> {
    match real_node(t, s, 0) {
        Err(e) => Err(e),
        Ok((n, p)) => if p == s.len() {
            Ok(n)
        } else {
            Err(BinaryNodeError::TrailingBytes)
        },
    }
}

// ---------------------------------------------------------------------------
// Decoder
// ---------------------------------------------------------------------------

/// Whether a string has no characters.
fn str_is_empty(s: &str) -> (r: bool)
    ensures
        r == (s@.len() == 0),
{
    s.unicode_len() == 0
}

/// Character of a packed hexadecimal digit.
pub fn unpack_hex(value: u8) -> (r: Result<u8, BinaryNodeError>)
    ensures
        r == unpack_spec(TAG_HEX_8, value),
{
    if value <= 9 {
        Ok(48 + value)
    } else if value <= 15 {
        Ok(65 + (value - 10))
    } else {
        Err(BinaryNodeError::InvalidPackedChar(value))
    }
}

/// Character of a packed nibble digit.
pub fn unpack_nibble(value: u8) -> (r: Result<u8, BinaryNodeError>)
    ensures
        r == unpack_spec(TAG_NIBBLE_8, value),
{
    if value <= 9 {
        Ok(48 + value)
    } else if value == 10 {
        Ok(45)
    } else if value == 11 {
        Ok(46)
    } else if value == 15 {
        Ok(0)
    } else {
        Err(BinaryNodeError::InvalidPackedChar(value))
    }
}

/// Character of a packed digit under tag `tag`.
pub fn unpack_byte(tag: u8, value: u8) -> (r: Result<u8, BinaryNodeError>)
    ensures
        r == unpack_spec(tag, value),
{
    match WaTag::from_u8(tag) {
        Some(WaTag::Nibble8) => unpack_nibble(value),
        Some(WaTag::Hex8) => unpack_hex(value),
        _ => Err(BinaryNodeError::InvalidListTag(tag)),
    }
}

proof fn lemma_unpack_ascii(tag: u8, v: u8)
    ensures
        unpack_spec(tag, v) matches Ok(c) ==> c < 128,
{
}

proof fn lemma_packed_ascii(s: Seq<u8>, p: int, tag: u8, n: nat, acc: Seq<u8>)
    requires
        forall|i: int| 0 <= i < acc.len() ==> acc[i] < 128,
    ensures
        rd_packed(s, p, tag, n, acc) matches Ok((b, q)) ==> forall|i: int| 0 <= i < b.len() ==> b[i] < 128,
    decreases n,
{
    if n > 0 && 0 <= p < s.len() {
        lemma_unpack_ascii(tag, s[p] / 16);
        lemma_unpack_ascii(tag, s[p] % 16);
        if let Ok(hi) = unpack_spec(tag, s[p] / 16) {
            if let Ok(lo) = unpack_spec(tag, s[p] % 16) {
                let acc2 = acc.push(hi).push(lo);
                assert forall|i: int| 0 <= i < acc2.len() implies acc2[i] < 128 by {
                    if i < acc.len() {
                        assert(acc2[i] == acc[i]);
                    }
                }
                lemma_packed_ascii(s, p + 1, tag, (n - 1) as nat, acc2);
            }
        }
    }
}

/// Cursor over a WA binary payload, with the token dictionaries it refers to.
pub struct RealDecoder<'a> {
    pub tables: &'a TokenTables,
    pub input: &'a [u8],
    pub position: usize,
}

impl<'a> RealDecoder<'a> {
    pub fn new(tables: &'a TokenTables, input: &'a [u8]) -> (r: Self)
        ensures
            r.tables == tables,
            r.input@ == input@,
            r.position == 0,
    {
        RealDecoder { tables, input, position: 0 }
    }

    pub fn is_eof(&self) -> (r: bool)
        ensures
            r == (self.position == self.input@.len()),
    {
        self.position == self.input.len()
    }

    pub fn read_byte(&mut self) -> (r: Result<u8, BinaryNodeError>)
        requires
            old(self).position <= old(self).input@.len(),
        ensures
            final(self).input == old(self).input,
            final(self).tables == old(self).tables,
            final(self).position <= final(self).input@.len(),
            old(self).position < old(self).input@.len() ==> r == Ok::<u8, BinaryNodeError>(
                old(self).input@[old(self).position as int],
            ) && final(self).position == old(self).position + 1,
            old(self).position >= old(self).input@.len() ==> r == Err::<u8, BinaryNodeError>(
                BinaryNodeError::UnexpectedEof,
            ),
    {
        if self.position < self.input.len() {
            let b = self.input[self.position];
            self.position = self.position + 1;
            Ok(b)
        } else {
            Err(BinaryNodeError::UnexpectedEof)
        }
    }

    pub fn read_int(&mut self, n: usize) -> (r: Result<usize, BinaryNodeError>)
        requires
            old(self).position <= old(self).input@.len(),
            n <= 4,
        ensures
            final(self).input == old(self).input,
            final(self).tables == old(self).tables,
            final(self).position <= final(self).input@.len(),
            final(self).position >= old(self).position,
            match rd_int(old(self).input@, old(self).position as int, n as nat) {
                Ok((v, q)) => r == Ok::<usize, BinaryNodeError>(v as usize) && final(self).position == q
                    && v < pow256(n as nat) && q == old(self).position + n,
                Err(e) => r == Err::<usize, BinaryNodeError>(e),
            },
    {
        let ghost s = self.input@;
        let ghost p0 = self.position as int;
        let mut value: usize = 0;
        let mut i: usize = 0;
        while i < n
            invariant
                self.input == old(self).input,
                self.tables == old(self).tables,
                s == self.input@,
                p0 == old(self).position,
                i <= n <= 4,
                p0 <= self.position <= s.len(),
                self.position == p0 + i,
                rd_int(s, p0, i as nat) == Ok::<(nat, int), BinaryNodeError>((value as nat, self.position as int)),
                value < pow256(i as nat),
            decreases n - i,
        {
            proof {
                lemma_pow256_bound(i as nat);
                lemma_pow256_bound((i + 1) as nat);
            }
            if self.position >= self.input.len() {
                assert(rd_int(s, p0, (i + 1) as nat) == Err::<(nat, int), BinaryNodeError>(BinaryNodeError::UnexpectedEof));
                proof {
                    lemma_rd_int_err(s, p0, (i + 1) as nat, n as nat);
                }
                return Err(BinaryNodeError::UnexpectedEof);
            }
            let b = self.input[self.position];
            proof {
                assert(value * 256 + b < pow256((i + 1) as nat)) by (nonlinear_arith)
                    requires
                        value < pow256(i as nat),
                        b < 256,
                        pow256((i + 1) as nat) == pow256(i as nat) * 256,
                ;
            }
            value = value * 256 + b as usize;
            self.position = self.position + 1;
            i += 1;
        }
        Ok(value)
    }

    pub fn read_int20(&mut self) -> (r: Result<usize, BinaryNodeError>)
        requires
            old(self).position <= old(self).input@.len(),
        ensures
            final(self).input == old(self).input,
            final(self).tables == old(self).tables,
            final(self).position <= final(self).input@.len(),
            r is Ok ==> final(self).position >= old(self).position,
            match rd_int20(old(self).input@, old(self).position as int) {
                Ok((v, q)) => r == Ok::<usize, BinaryNodeError>(v as usize) && final(self).position == q,
                Err(e) => r == Err::<usize, BinaryNodeError>(e),
            },
    {
        if self.input.len() - self.position < 3 {
            return Err(BinaryNodeError::UnexpectedEof);
        }
        let a = (self.input[self.position] % 16) as usize;
        let b = self.input[self.position + 1] as usize;
        let c = self.input[self.position + 2] as usize;
        self.position = self.position + 3;
        Ok(a * 65536 + b * 256 + c)
    }

    pub fn read_bytes(&mut self, n: usize) -> (r: Result<&'a [u8], BinaryNodeError>)
        requires
            old(self).position <= old(self).input@.len(),
        ensures
            final(self).input == old(self).input,
            final(self).tables == old(self).tables,
            final(self).position <= final(self).input@.len(),
            old(self).position + n <= old(self).input@.len() ==> (r matches Ok(b) && b@
                == old(self).input@.subrange(old(self).position as int, old(self).position + n)
                && final(self).position == old(self).position + n),
            old(self).position + n > old(self).input@.len() ==> r == Err::<&'a [u8], BinaryNodeError>(
                BinaryNodeError::UnexpectedEof,
            ),
    {
        if n > self.input.len() - self.position {
            return Err(BinaryNodeError::UnexpectedEof);
        }
        let end = self.position + n;
        let bytes = &self.input[self.position..end];
        self.position = end;
        Ok(bytes)
    }

    fn read_utf8(&mut self, n: usize) -> (r: Result<String, BinaryNodeError>)
        requires
            old(self).position <= old(self).input@.len(),
        ensures
            final(self).input == old(self).input,
            final(self).tables == old(self).tables,
            final(self).position <= final(self).input@.len(),
            r is Ok ==> final(self).position >= old(self).position,
            match rd_utf8(old(self).input@, Ok((n as nat, old(self).position as int))) {
                Ok((v, q)) => r matches Ok(x) && x@ == v && final(self).position == q,
                Err(e) => r == Err::<String, BinaryNodeError>(e),
            },
    {
        let value = self.read_bytes(n)?;
        match string_from_utf8(bytes_to_vec(value)) {
            Some(text) => Ok(text),
            None => Err(BinaryNodeError::InvalidUtf8),
        }
    }

    pub fn is_list_tag(&self, tag: u8) -> (r: bool)
        ensures
            r == is_list_tag_spec(tag),
    {
        match WaTag::from_u8(tag) {
            Some(WaTag::ListEmpty) | Some(WaTag::List8) | Some(WaTag::List16) => true,
            _ => false,
        }
    }

    pub fn read_list_size(&mut self, tag: u8) -> (r: Result<usize, BinaryNodeError>)
        requires
            old(self).position <= old(self).input@.len(),
        ensures
            final(self).input == old(self).input,
            final(self).tables == old(self).tables,
            final(self).position <= final(self).input@.len(),
            final(self).position >= old(self).position,
            match rd_list_size(old(self).input@, old(self).position as int, tag) {
                Ok((v, q)) => r == Ok::<usize, BinaryNodeError>(v as usize) && final(self).position == q && v < 65536,
                Err(e) => r == Err::<usize, BinaryNodeError>(e),
            },
    {
        proof {
            lemma_pow256_values();
        }
        match WaTag::from_u8(tag) {
            Some(WaTag::ListEmpty) => Ok(0),
            Some(WaTag::List8) => self.read_int(1),
            Some(WaTag::List16) => self.read_int(2),
            _ => Err(BinaryNodeError::InvalidListTag(tag)),
        }
    }

    pub fn read_packed_8(&mut self, tag: u8) -> (r: Result<String, BinaryNodeError>)
        requires
            old(self).position <= old(self).input@.len(),
        ensures
            final(self).input == old(self).input,
            final(self).tables == old(self).tables,
            final(self).position <= final(self).input@.len(),
            r is Ok ==> final(self).position >= old(self).position,
            match rd_packed_string(old(self).input@, old(self).position as int, tag) {
                Ok((v, q)) => r matches Ok(x) && x@ == v && final(self).position == q,
                Err(e) => r == Err::<String, BinaryNodeError>(e),
            },
    {
        let ghost s = self.input@;
        let ghost p0 = self.position as int;
        let start = self.read_byte()?;
        let count = start % 128;
        let mut out: Vec<u8> = Vec::new();
        let mut i: u8 = 0;
        while i < count
            invariant
                self.input == old(self).input,
                self.tables == old(self).tables,
                s == self.input@,
                p0 == old(self).position,
                0 <= p0 < s.len(),
                start == s[p0],
                count == start % 128,
                i <= count,
                p0 + 1 <= self.position <= s.len(),
                rd_packed(s, p0 + 1, tag, count as nat, Seq::empty()) == rd_packed(
                    s,
                    self.position as int,
                    tag,
                    (count - i) as nat,
                    out@,
                ),
            decreases count - i,
        {
            let ghost pos = self.position as int;
            let cur = self.read_byte()?;
            let hi = unpack_byte(tag, cur / 16)?;
            let lo = unpack_byte(tag, cur % 16)?;
            out.push(hi);
            out.push(lo);
            i += 1;
        }
        proof {
            lemma_packed_ascii(s, p0 + 1, tag, count as nat, Seq::empty());
        }
        if start / 128 != 0 {
            if out.len() > 0 {
                let _ = out.pop();
            }
        }
        Ok(ascii_string(out))
    }
}

/// `256^n`.
pub open spec fn pow256(n: nat) -> nat
    decreases n,
{
    if n == 0 {
        1
    } else {
        pow256((n - 1) as nat) * 256
    }
}

pub proof fn lemma_pow256_values()
    ensures
        pow256(1) == 256,
        pow256(2) == 65536,
        pow256(4) == 4294967296,
{
    reveal_with_fuel(pow256, 5);
}

proof fn lemma_pow256_bound(n: nat)
    requires
        n <= 4,
    ensures
        pow256(n) <= 4294967296,
        pow256((n + 1) as nat) == pow256(n) * 256,
{
    reveal_with_fuel(pow256, 5);
}

proof fn lemma_rd_int_err(s: Seq<u8>, p: int, i: nat, n: nat)
    requires
        i <= n,
        rd_int(s, p, i) is Err,
    ensures
        rd_int(s, p, n) == rd_int(s, p, i),
    decreases n - i,
{
    if i < n {
        lemma_rd_int_err(s, p, i, (n - 1) as nat);
    }
}

/// `user[:device]@server`.
pub fn jid_encode(user: &str, server: &str, device: Option<u16>) -> (r: String)
    ensures
        r@ == jid_encode_spec(user@, server@, device),
{
    proof {
        reveal_strlit(":");
        reveal_strlit("@");
    }
    match device {
        Some(d) => {
            let a = str_concat(user, ":");
            let digits = decimal_string(d as u128);
            let b = str_concat(a.as_str(), digits.as_str());
            let c = str_concat(b.as_str(), "@");
            str_concat(c.as_str(), server)
        },
        None => {
            let a = str_concat(user, "@");
            str_concat(a.as_str(), server)
        },
    }
}

impl<'a> RealDecoder<'a> {
    pub fn read_string(&mut self, tag: u8) -> (r: Result<String, BinaryNodeError>)
        requires
            old(self).position <= old(self).input@.len(),
            old(self).tables.wf(),
        ensures
            final(self).input == old(self).input,
            final(self).tables == old(self).tables,
            final(self).position <= final(self).input@.len(),
            r is Ok ==> final(self).position >= old(self).position,
            match real_string(old(self).tables@, old(self).input@, old(self).position as int, tag) {
                Ok((v, q)) => r matches Ok(x) && x@ == v && final(self).position == q,
                Err(e) => r == Err::<String, BinaryNodeError>(e),
            },
            match body_string(old(self).tables@, old(self).input@, old(self).position as int, tag) {
                Ok((v, q)) => r matches Ok(x) && x@ == v && final(self).position == q,
                Err(e) => r == Err::<String, BinaryNodeError>(e),
            },
        decreases old(self).input@.len() - old(self).position, 2int,
    {
        proof {
            reveal(body_string);
            reveal_with_fuel(rd_int, 2);
            lemma_pow256_values();
        }
        let tables = self.tables;
        if tag >= 1 && (tag as usize) < tables.single.len() {
            return Ok(tables.single[tag as usize].clone());
        }
        match WaTag::from_u8(tag) {
            Some(WaTag::Dictionary0) | Some(WaTag::Dictionary1) | Some(WaTag::Dictionary2) | Some(
                WaTag::Dictionary3,
            ) => {
                let dict_index = tag - TAG_DICTIONARY_0;
                let index = self.read_byte()?;
                if dict_index as usize >= tables.double.len() {
                    return Err(BinaryNodeError::UnknownTokenDictionary(dict_index));
                }
                let dict = &tables.double[dict_index as usize];
                if index as usize >= dict.len() {
                    return Err(BinaryNodeError::UnknownDoubleToken { dict: dict_index, index });
                }
                Ok(dict[index as usize].clone())
            },
            Some(WaTag::ListEmpty) => Ok(String::new()),
            Some(WaTag::Binary8) => {
                let len = self.read_byte()?;
                self.read_utf8(len as usize)
            },
            Some(WaTag::Binary20) => {
                let len = self.read_int20()?;
                self.read_utf8(len)
            },
            Some(WaTag::Binary32) => {
                let len = self.read_int(4)?;
                self.read_utf8(len)
            },
            Some(WaTag::JidPair) => self.read_jid_pair(),
            Some(WaTag::AdJid) => self.read_ad_jid(),
            Some(WaTag::FbJid) => self.read_fb_jid(),
            Some(WaTag::InteropJid) => self.read_interop_jid(),
            Some(WaTag::Hex8) | Some(WaTag::Nibble8) => self.read_packed_8(tag),
            _ => Err(BinaryNodeError::InvalidSymbolType(tag)),
        }
    }

    /// Reads a tag byte and the string it introduces.
    fn read_tagged_string(&mut self) -> (r: Result<String, BinaryNodeError>)
        requires
            old(self).position <= old(self).input@.len(),
            old(self).tables.wf(),
        ensures
            final(self).input == old(self).input,
            final(self).tables == old(self).tables,
            final(self).position <= final(self).input@.len(),
            r is Ok ==> final(self).position > old(self).position,
            match string_at(old(self).tables@, old(self).input@, old(self).position as int) {
                Ok((v, q)) => r matches Ok(x) && x@ == v && final(self).position == q,
                Err(e) => r == Err::<String, BinaryNodeError>(e),
            },
            match node_string(old(self).tables@, old(self).input@, old(self).position as int) {
                Ok((v, q)) => r matches Ok(x) && x@ == v && final(self).position == q,
                Err(e) => r == Err::<String, BinaryNodeError>(e),
            },
        decreases old(self).input@.len() - old(self).position, 0int,
    {
        proof {
            reveal(node_string);
        }
        let tag = self.read_byte()?;
        self.read_string(tag)
    }

    pub fn read_jid_pair(&mut self) -> (r: Result<String, BinaryNodeError>)
        requires
            old(self).position <= old(self).input@.len(),
            old(self).tables.wf(),
        ensures
            final(self).input == old(self).input,
            final(self).tables == old(self).tables,
            final(self).position <= final(self).input@.len(),
            r is Ok ==> final(self).position >= old(self).position,
            match real_string(old(self).tables@, old(self).input@, old(self).position as int, TAG_JID_PAIR) {
                Ok((v, q)) => r matches Ok(x) && x@ == v && final(self).position == q,
                Err(e) => r == Err::<String, BinaryNodeError>(e),
            },
        decreases old(self).input@.len() - old(self).position, 1int,
    {
        proof {
            reveal_strlit("@");
                    }
        let user = self.read_tagged_string()?;
        let server = self.read_tagged_string()?;
        if str_is_empty(server.as_str()) {
            return Err(BinaryNodeError::InvalidFrame("invalid jid pair"));
        }
        if str_is_empty(user.as_str()) {
            let r = str_concat("@", server.as_str());
            assert(r@ =~= user@ + seq!['@'] + server@);
            Ok(r)
        } else {
            let a = str_concat(user.as_str(), "@");
            Ok(str_concat(a.as_str(), server.as_str()))
        }
    }

    pub fn read_ad_jid(&mut self) -> (r: Result<String, BinaryNodeError>)
        requires
            old(self).position <= old(self).input@.len(),
            old(self).tables.wf(),
        ensures
            final(self).input == old(self).input,
            final(self).tables == old(self).tables,
            final(self).position <= final(self).input@.len(),
            r is Ok ==> final(self).position >= old(self).position,
            match real_string(old(self).tables@, old(self).input@, old(self).position as int, TAG_AD_JID) {
                Ok((v, q)) => r matches Ok(x) && x@ == v && final(self).position == q,
                Err(e) => r == Err::<String, BinaryNodeError>(e),
            },
        decreases old(self).input@.len() - old(self).position, 1int,
    {
        proof {
                    }
        let domain_type = self.read_byte()?;
        let device = self.read_byte()?;
        let user = self.read_tagged_string()?;
        let server = if domain_type == 1 {
            "lid"
        } else if domain_type == 128 {
            "hosted"
        } else if domain_type == 129 {
            "hosted.lid"
        } else {
            "s.whatsapp.net"
        };
        Ok(
            jid_encode(
                user.as_str(),
                server,
                if device > 0 {
                    Some(device as u16)
                } else {
                    None
                },
            ),
        )
    }

    pub fn read_fb_jid(&mut self) -> (r: Result<String, BinaryNodeError>)
        requires
            old(self).position <= old(self).input@.len(),
            old(self).tables.wf(),
        ensures
            final(self).input == old(self).input,
            final(self).tables == old(self).tables,
            final(self).position <= final(self).input@.len(),
            r is Ok ==> final(self).position >= old(self).position,
            match real_string(old(self).tables@, old(self).input@, old(self).position as int, TAG_FB_JID) {
                Ok((v, q)) => r matches Ok(x) && x@ == v && final(self).position == q,
                Err(e) => r == Err::<String, BinaryNodeError>(e),
            },
        decreases old(self).input@.len() - old(self).position, 1int,
    {
        proof {
            reveal_strlit(":");
            reveal_strlit("@");
            lemma_pow256_values();
        }
        let user = self.read_tagged_string()?;
        let device = self.read_int(2)?;
        let server = self.read_tagged_string()?;
        let a = str_concat(user.as_str(), ":");
        let digits = decimal_string(device as u128);
        let b = str_concat(a.as_str(), digits.as_str());
        let c = str_concat(b.as_str(), "@");
        let r = str_concat(c.as_str(), server.as_str());
        assert(r@ =~= user@ + seq![':'] + decimal_chars(device as nat) + seq!['@'] + server@);
        Ok(r)
    }

    pub fn read_interop_jid(&mut self) -> (r: Result<String, BinaryNodeError>)
        requires
            old(self).position <= old(self).input@.len(),
            old(self).tables.wf(),
        ensures
            final(self).input == old(self).input,
            final(self).tables == old(self).tables,
            final(self).position <= final(self).input@.len(),
            r is Ok ==> final(self).position >= old(self).position,
            match real_string(old(self).tables@, old(self).input@, old(self).position as int, TAG_INTEROP_JID) {
                Ok((v, q)) => r matches Ok(x) && x@ == v && final(self).position == q,
                Err(e) => r == Err::<String, BinaryNodeError>(e),
            },
        decreases old(self).input@.len() - old(self).position, 1int,
    {
        proof {
            reveal_strlit(":");
            reveal_strlit("@");
            reveal_strlit("-");
            lemma_pow256_values();
        }
        let user = self.read_tagged_string()?;
        let device = self.read_int(2)?;
        let integrator = self.read_int(2)?;
        let before = self.position;
        let server = match self.read_tagged_string() {
            Ok(value) => value,
            Err(_) => {
                self.position = before;
                "interop".to_owned()
            },
        };
        let a = decimal_string(integrator as u128);
        let b = str_concat(a.as_str(), "-");
        let c = str_concat(b.as_str(), user.as_str());
        let d = str_concat(c.as_str(), ":");
        let digits = decimal_string(device as u128);
        let e = str_concat(d.as_str(), digits.as_str());
        let f = str_concat(e.as_str(), "@");
        let r = str_concat(f.as_str(), server.as_str());
        assert(r@ =~= decimal_chars(integrator as nat) + seq!['-'] + user@ + seq![':'] + decimal_chars(device as nat)
            + seq!['@'] + server@);
        Ok(r)
    }
}

/// The views of a sequence of nodes.
pub open spec fn nodes_view(v: Seq<BinaryNode>) -> Seq<NodeView> {
    Seq::new(v.len(), |j: int| node_view(&v[j]))
}

impl<'a> RealDecoder<'a> {
    #[verifier::rlimit(60)]
    pub fn decode_node(&mut self) -> (r: Result<BinaryNode, BinaryNodeError>)
        requires
            old(self).position <= old(self).input@.len(),
            old(self).tables.wf(),
        ensures
            final(self).input == old(self).input,
            final(self).tables == old(self).tables,
            final(self).position <= final(self).input@.len(),
            r is Ok ==> final(self).position > old(self).position,
            match real_node(old(self).tables@, old(self).input@, old(self).position as int) {
                Ok((v, q)) => r matches Ok(n) && n@ == v && n.wf() && final(self).position == q,
                Err(e) => r == Err::<BinaryNode, BinaryNodeError>(e),
            },
        decreases old(self).input@.len() - old(self).position, 0int,
    {
        let ghost s = self.input@;
        let ghost t = self.tables@;
        let ghost p0 = self.position as int;
        proof {
            lemma_pow256_values();
            reveal_with_fuel(rd_int, 2);
        }
        let list_tag = self.read_byte()?;
        let list_size = self.read_list_size(list_tag)?;
        let ghost q1 = self.position as int;
        let header = self.read_tagged_string()?;
        let ghost q2 = self.position as int;
        if list_size == 0 || str_is_empty(header.as_str()) {
            return Err(BinaryNodeError::InvalidFrame("invalid wa node"));
        }
        let attrs_len = (list_size - 1) / 2;
        let ghost n = attrs_len as nat;
        let mut attrs: Vec<(String, String)> = Vec::new();
        assert(attrs_map(attrs@) == Map::<Seq<char>, Seq<char>>::empty());
        let mut i: usize = 0;
        while i < attrs_len
            invariant
                self.input == old(self).input,
                self.tables == old(self).tables,
                self.tables.wf(),
                s == self.input@,
                t == self.tables@,
                q2 <= self.position <= s.len(),
                p0 == old(self).position,
                0 <= p0 < s.len(),
                p0 < q1 < q2,
                rd_list_size(s, p0 + 1, s[p0]) == Ok::<(nat, int), BinaryNodeError>((list_size as nat, q1)),
                node_string(t, s, q1) == Ok::<(Seq<char>, int), BinaryNodeError>((header@, q2)),
                list_size > 0,
                header@.len() > 0,
                n == (list_size - 1) / 2,
                attrs_len == (list_size - 1) / 2,
                i <= attrs_len,
                attrs_distinct(attrs@),
                real_attrs(t, s, q2, n, Map::empty()) == real_attrs(
                    t,
                    s,
                    self.position as int,
                    (n - i) as nat,
                    attrs_map(attrs@),
                ),
            decreases attrs_len - i,
        {
            let key = self.read_tagged_string()?;
            let value = self.read_tagged_string()?;
            insert_attr(&mut attrs, key, value);
            i += 1;
        }
        let ghost q3 = self.position as int;
        let content = if list_size % 2 == 0 {
            let tag = self.read_byte()?;
            if self.is_list_tag(tag) {
                NodeContent::Nodes(self.read_list(tag)?)
            } else {
                match WaTag::from_u8(tag) {
                    Some(WaTag::Binary8) => {
                        let len = self.read_byte()?;
                        NodeContent::Bytes(bytes_to_vec(self.read_bytes(len as usize)?))
                    },
                    Some(WaTag::Binary20) => {
                        let len = self.read_int20()?;
                        NodeContent::Bytes(bytes_to_vec(self.read_bytes(len)?))
                    },
                    Some(WaTag::Binary32) => {
                        let len = self.read_int(4)?;
                        NodeContent::Bytes(bytes_to_vec(self.read_bytes(len)?))
                    },
                    _ => {
                        let text = self.read_string(tag)?;
                        NodeContent::Bytes(bytes_to_vec(text.as_str().as_bytes()))
                    },
                }
            }
        } else {
            NodeContent::Empty
        };
        let node = BinaryNode { tag: header, attrs, content };
        proof {
            crate::binary_node::lemma_node_view_unfold(&node);
        }
        Ok(node)
    }

    #[verifier::rlimit(100)]
    #[verifier::spinoff_prover]
    pub fn read_list(&mut self, tag: u8) -> (r: Result<Vec<BinaryNode>, BinaryNodeError>)
        requires
            old(self).position <= old(self).input@.len(),
            old(self).tables.wf(),
        ensures
            final(self).input == old(self).input,
            final(self).tables == old(self).tables,
            final(self).position <= final(self).input@.len(),
            r is Ok ==> final(self).position >= old(self).position,
            match real_list(old(self).tables@, old(self).input@, old(self).position as int, tag) {
                Ok((v, q)) => r matches Ok(ns) && nodes_view(ns@) == v && (forall|j: int|
                    0 <= j < ns@.len() ==> node_wf(&#[trigger] ns@[j])) && final(self).position == q,
                Err(e) => r == Err::<Vec<BinaryNode>, BinaryNodeError>(e),
            },
        decreases old(self).input@.len() - old(self).position, 2int,
    {
        let ghost s = self.input@;
        let ghost t = self.tables@;
        let size = self.read_list_size(tag)?;
        let ghost q0 = self.position as int;
        let ghost n = size as nat;
        let mut out: Vec<BinaryNode> = Vec::new();
        assert(nodes_view(out@) =~= Seq::<NodeView>::empty());
        let mut i: usize = 0;
        while i < size
            invariant
                self.input == old(self).input,
                self.tables == old(self).tables,
                self.tables.wf(),
                s == self.input@,
                t == self.tables@,
                old(self).position <= q0 <= self.position <= s.len(),
                real_list(t, s, old(self).position as int, tag) == real_nodes(t, s, q0, n, Seq::empty()),
                i <= size,
                n == size,
                out@.len() == i,
                forall|j: int| 0 <= j < i ==> node_wf(&#[trigger] out@[j]),
                real_nodes(t, s, q0, n, Seq::empty()) == real_nodes(
                    t,
                    s,
                    self.position as int,
                    (n - i) as nat,
                    nodes_view(out@),
                ),
            decreases size - i,
        {
            let ghost before = nodes_view(out@);
            let ghost pos = self.position as int;
            let node = match self.decode_node() {
                Ok(nd) => nd,
                Err(e) => {
                    assert(real_nodes(t, s, pos, (n - i) as nat, before) == Err::<(Seq<NodeView>, int), BinaryNodeError>(e));
                    return Err(e);
                },
            };
            assert(real_nodes(t, s, pos, (n - i) as nat, before) == real_nodes(
                t,
                s,
                self.position as int,
                (n - i - 1) as nat,
                before.push(node@),
            ));
            out.push(node);
            assert(nodes_view(out@) =~= before.push(node_view(&out@[i as int])));
            i += 1;
        }
        Ok(out)
    }
}

/// Result of inflating a zlib stream, or `None` when the stream is invalid.
pub uninterp spec fn zlib_inflate_spec(data: Seq<u8>) -> Option<Seq<u8>>;

/// `flate2::read::ZlibDecoder` read to the end.
#[verifier::external_body]
fn zlib_inflate(data: &[u8]) -> (r: Option<Vec<u8>>)
    ensures
        match zlib_inflate_spec(data@) {
            Some(b) => r matches Some(v) && v@ == b,
            None => r is None,
        },
{
    let mut decoder = flate2::read::ZlibDecoder::new(data);
    let mut out = Vec::new();
    match std::io::Read::read_to_end(&mut decoder, &mut out) {
        Ok(_) => Some(out),
        Err(_) => None,
    }
}

/// The node bytes of a frame: the first byte flags zlib compression (bit `0x02`).
pub open spec fn decompress_spec(input: Seq<u8>) -> Result<Seq<u8>, BinaryNodeError> {
    if input.len() == 0 {
        Err(BinaryNodeError::InvalidCompressedNode)
    } else if input[0] & 2 != 0 {
        match zlib_inflate_spec(input.skip(1)) {
            Some(b) => Ok(b),
            None => Err(BinaryNodeError::InflateFailed),
        }
    } else if input.len() < 2 {
        Err(BinaryNodeError::InvalidCompressedNode)
    } else {
        Ok(input.skip(1))
    }
}

/// Strips the frame flag byte, inflating the rest when it is compressed.
pub fn decompress_if_required(input: &[u8]) -> (r: Result<Vec<u8>, BinaryNodeError>)
    ensures
        match decompress_spec(input@) {
            Ok(b) => r matches Ok(v) && v@ == b,
            Err(e) => r == Err::<Vec<u8>, BinaryNodeError>(e),
        },
{
    if input.len() == 0 {
        return Err(BinaryNodeError::InvalidCompressedNode);
    }
    let first = input[0];
    let mut rest: Vec<u8> = Vec::new();
    let mut i: usize = 1;
    while i < input.len()
        invariant
            1 <= i <= input@.len(),
            rest@ == input@.subrange(1, i as int),
        decreases input@.len() - i,
    {
        rest.push(input[i]);
        i += 1;
        assert(rest@ =~= input@.subrange(1, i as int));
    }
    assert(rest@ =~= input@.skip(1));
    if first & 0x02 != 0 {
        return match zlib_inflate(rest.as_slice()) {
            Some(out) => Ok(out),
            None => Err(BinaryNodeError::InflateFailed),
        };
    }
    if input.len() < 2 {
        return Err(BinaryNodeError::InvalidCompressedNode);
    }
    Ok(rest)
}

/// Decodes a WA binary frame (with its leading compression flag byte).
pub fn decode_real(tables: &TokenTables, input: &[u8]) -> (r: Result<BinaryNode, BinaryNodeError>)
    requires
        tables.wf(),
    ensures
        match decompress_spec(input@) {
            Err(e) => r == Err::<BinaryNode, BinaryNodeError>(e),
            Ok(b) => match spec_decode_real_body(tables@, b) {
                Ok(v) => r matches Ok(n) && n@ == v && n.wf(),
                Err(e) => r == Err::<BinaryNode, BinaryNodeError>(e),
            },
        },
{
    let decompressed = decompress_if_required(input)?;
    let mut decoder = RealDecoder::new(tables, decompressed.as_slice());
    let node = decoder.decode_node()?;
    if !decoder.is_eof() {
        return Err(BinaryNodeError::TrailingBytes);
    }
    Ok(node)
}

// ---------------------------------------------------------------------------
// Encoder specification
// ---------------------------------------------------------------------------

/// Last index below `n` at which `row` holds `v`.
pub open spec fn last_index_of(row: Seq<Seq<char>>, v: Seq<char>, n: int) -> Option<int>
    decreases n,
{
    if n <= 0 {
        None
    } else if row[n - 1] == v {
        Some(n - 1)
    } else {
        last_index_of(row, v, n - 1)
    }
}

/// The last dictionary below `d` holding `v`, with `v`'s last index in it.
pub open spec fn double_lookup(double: Seq<Seq<Seq<char>>>, v: Seq<char>, d: int) -> Option<(u8, u8)>
    decreases d,
{
    if d <= 0 {
        None
    } else {
        match last_index_of(double[d - 1], v, if double[d - 1].len() < 256 { double[d - 1].len() as int } else { 256 }) {
            Some(i) => Some(((d - 1) as u8, i as u8)),
            None => double_lookup(double, v, d - 1),
        }
    }
}

/// Token reference of a string: a double-byte token wins over a single-byte
/// one, and a later occurrence over an earlier one.
pub open spec fn token_lookup(t: TablesView, v: Seq<char>) -> Option<(Option<u8>, u8)> {
    match double_lookup(t.double, v, t.double.len() as int) {
        Some((d, i)) => Some((Some(d), i)),
        None => match last_index_of(t.single, v, if t.single.len() < 256 { t.single.len() as int } else { 256 }) {
            Some(i) => Some((None, i as u8)),
            None => None,
        },
    }
}

/// Text that packs as nibble digits: 1 to 127 bytes of digits, `-` and `.`.
pub open spec fn is_nibble_spec(b: Seq<u8>) -> bool {
    &&& 0 < b.len() <= 127
    &&& forall|i: int| 0 <= i < b.len() ==> (48 <= #[trigger] b[i] <= 57 || b[i] == 45 || b[i] == 46)
}

/// Text that packs as hexadecimal digits: 1 to 127 bytes of digits and `A`-`F`.
pub open spec fn is_hex_spec(b: Seq<u8>) -> bool {
    &&& 0 < b.len() <= 127
    &&& forall|i: int| 0 <= i < b.len() ==> (48 <= #[trigger] b[i] <= 57 || (65 <= b[i] <= 70))
}

/// Nibble of a character under packing tag `tag`.
pub open spec fn pack_char_spec(c: char, tag: u8) -> Result<u8, BinaryNodeError> {
    if tag == TAG_NIBBLE_8 {
        if '0' <= c && c <= '9' {
            Ok((c as u32 - 48) as u8)
        } else if c == '-' {
            Ok(10)
        } else if c == '.' {
            Ok(11)
        } else if c == '\0' {
            Ok(15)
        } else {
            Err(BinaryNodeError::InvalidPackedChar(c as u8))
        }
    } else if tag == TAG_HEX_8 {
        if '0' <= c && c <= '9' {
            Ok((c as u32 - 48) as u8)
        } else if 'A' <= c && c <= 'F' {
            Ok((10 + (c as u32 - 65)) as u8)
        } else if 'a' <= c && c <= 'f' {
            Ok((10 + (c as u32 - 97)) as u8)
        } else if c == '\0' {
            Ok(15)
        } else {
            Err(BinaryNodeError::InvalidPackedChar(c as u8))
        }
    } else {
        Err(BinaryNodeError::InvalidListTag(tag))
    }
}

/// Packed bytes of the characters of `v` from index `i` on, two per byte
/// (a missing second digit is `0x0F`).
pub open spec fn packed_pairs(v: Seq<char>, tag: u8, i: int) -> Result<Seq<u8>, BinaryNodeError>
    decreases v.len() + 1 - i,
{
    if i < 0 || i >= v.len() {
        Ok(Seq::empty())
    } else {
        match pack_char_spec(v[i], tag) {
            Err(e) => Err(e),
            Ok(left) => match (if i + 1 < v.len() {
                pack_char_spec(v[i + 1], tag)
            } else {
                Ok(15u8)
            }) {
                Err(e) => Err(e),
                Ok(right) => match packed_pairs(v, tag, i + 2) {
                    Err(e) => Err(e),
                    Ok(rest) => Ok(seq![(left * 16 + right) as u8] + rest),
                },
            },
        }
    }
}

/// Packed form of `v`: tag, digit-pair count (high bit when the byte length is odd), pairs.
pub open spec fn write_packed_spec(v: Seq<char>, tag: u8) -> Result<Seq<u8>, BinaryNodeError> {
    let n = encode_utf8(v).len();
    if n > 127 {
        Err(BinaryNodeError::SymbolTooLong)
    } else {
        match packed_pairs(v, tag, 0) {
            Err(e) => Err(e),
            Ok(p) => Ok(seq![tag, ((n + 1) / 2 + if n % 2 != 0 { 128int } else { 0int }) as u8] + p),
        }
    }
}

/// `n` big-endian bytes of `value`.
pub open spec fn be_bytes(value: nat, n: nat) -> Seq<u8> {
    Seq::new(n, |k: int| ((value / pow256((n - 1 - k) as nat)) % 256) as u8)
}

/// Header of a byte string of length `n`.
pub open spec fn byte_length_spec(n: nat) -> Result<Seq<u8>, BinaryNodeError> {
    if n >= 4294967296 {
        Err(BinaryNodeError::PayloadTooLarge)
    } else if n >= 1048576 {
        Ok(seq![TAG_BINARY_32] + be_bytes(n, 4))
    } else if n >= 256 {
        Ok(seq![TAG_BINARY_20, (n / 65536) as u8, ((n / 256) % 256) as u8, (n % 256) as u8])
    } else {
        Ok(seq![TAG_BINARY_8, n as u8])
    }
}

/// Header of a list of `n` entries.
pub open spec fn list_start_spec(n: nat) -> Result<Seq<u8>, BinaryNodeError> {
    if n == 0 {
        Ok(seq![TAG_LIST_EMPTY])
    } else if n < 256 {
        Ok(seq![TAG_LIST_8, n as u8])
    } else if n <= 65535 {
        Ok(seq![TAG_LIST_16, (n / 256) as u8, (n % 256) as u8])
    } else {
        Err(BinaryNodeError::PayloadTooLarge)
    }
}

/// A string written as raw UTF-8 bytes.
pub open spec fn write_raw_spec(v: Seq<char>) -> Result<Seq<u8>, BinaryNodeError> {
    match byte_length_spec(encode_utf8(v).len()) {
        Err(e) => Err(e),
        Ok(h) => Ok(h + encode_utf8(v)),
    }
}

/// Parts of a JID.
pub struct JidView {
    pub user: Seq<char>,
    pub server: Seq<char>,
    pub device: Option<u16>,
    pub domain_type: u8,
}

/// Reads `user[_agent][:device]@server`: the device must parse as a `u16`;
/// the domain type comes from the server, else from the agent (`0` by default).
pub open spec fn jid_decode_spec(v: Seq<char>) -> Option<JidView> {
    match split_once_spec(v, '@') {
        None => None,
        Some((user_part, server)) => {
            let (user_agent, device_ok, device) = match split_once_spec(user_part, ':') {
                Some((ua, d)) => match parse_unsigned_spec(d, 65535) {
                    Some(x) => (ua, true, Some(x as u16)),
                    None => (ua, false, None),
                },
                None => (user_part, true, None),
            };
            if !device_ok {
                None
            } else {
                let (user, agent) = match split_once_spec(user_agent, '_') {
                    Some((u, a)) => (u, Some(a)),
                    None => (user_agent, None),
                };
                let domain_type = if server == "lid"@ {
                    1u8
                } else if server == "hosted"@ {
                    128u8
                } else if server == "hosted.lid"@ {
                    129u8
                } else {
                    match agent {
                        Some(a) => match parse_unsigned_spec(a, 255) {
                            Some(x) => x as u8,
                            None => 0u8,
                        },
                        None => 0u8,
                    }
                };
                Some(JidView { user, server, device, domain_type })
            }
        },
    }
}

/// Encoding of one string: a token reference, packed digits, a JID, or raw bytes.
pub open spec fn write_string_spec(t: TablesView, v: Seq<char>) -> Result<Seq<u8>, BinaryNodeError>
    decreases v.len(), 1int,
{
    if v.len() == 0 {
        write_raw_spec(v)
    } else {
        match token_lookup(t, v) {
            Some((Some(d), i)) => Ok(seq![(TAG_DICTIONARY_0 + d) as u8, i]),
            Some((None, i)) => Ok(seq![i]),
            None => if is_nibble_spec(encode_utf8(v)) {
                write_packed_spec(v, TAG_NIBBLE_8)
            } else if is_hex_spec(encode_utf8(v)) {
                write_packed_spec(v, TAG_HEX_8)
            } else {
                match jid_decode_spec(v) {
                    Some(j) => if j.user.len() + j.server.len() + 1 > v.len() {
                        Err(BinaryNodeError::InvalidFrame("jid"))
                    } else {
                        write_jid_spec(t, j)
                    },
                    None => write_raw_spec(v),
                }
            },
        }
    }
}

/// Encoding of a decoded JID.
pub open spec fn write_jid_spec(t: TablesView, j: JidView) -> Result<Seq<u8>, BinaryNodeError>
    decreases j.user.len() + j.server.len() + 1, 0int,
{
    match j.device {
        Some(device) => if device > 255 {
            Err(BinaryNodeError::InvalidFrame("jid device id overflow"))
        } else {
            match write_string_spec(t, j.user) {
                Err(e) => Err(e),
                Ok(u) => Ok(seq![TAG_AD_JID, j.domain_type, device as u8] + u),
            }
        },
        None => match (if j.user.len() == 0 {
            Ok(seq![TAG_LIST_EMPTY])
        } else {
            write_string_spec(t, j.user)
        }) {
            Err(e) => Err(e),
            Ok(u) => match write_string_spec(t, j.server) {
                Err(e) => Err(e),
                Ok(sv) => Ok(seq![TAG_JID_PAIR] + u + sv),
            },
        },
    }
}

/// [`write_string_spec`], kept folded where nodes are written.
#[verifier::opaque]
pub open spec fn text_bytes(t: TablesView, v: Seq<char>) -> Result<Seq<u8>, BinaryNodeError> {
    write_string_spec(t, v)
}

/// Encoding of key/value pairs, in list order.
pub open spec fn real_attr_list(t: TablesView, s: Seq<(String, String)>) -> Result<Seq<u8>, BinaryNodeError>
    decreases s.len(),
{
    if s.len() == 0 {
        Ok(Seq::empty())
    } else {
        match real_attr_list(t, s.drop_last()) {
            Err(e) => Err(e),
            Ok(a) => match text_bytes(t, s.last().0@) {
                Err(e) => Err(e),
                Ok(k) => match text_bytes(t, s.last().1@) {
                    Err(e) => Err(e),
                    Ok(v) => Ok(a + k + v),
                },
            },
        }
    }
}

/// Encoding of a node: list header, tag, attributes sorted by key, body.
pub open spec fn encode_real_node_spec(t: TablesView, n: &BinaryNode) -> Result<Seq<u8>, BinaryNodeError>
    decreases n, 1int, 0int,
{
    if n.tag@.len() == 0 {
        Err(BinaryNodeError::InvalidFrame("node tag cannot be empty"))
    } else {
        let size = 2 * n.attrs@.len() + 1 + if n.content is Empty { 0nat } else { 1nat };
        match list_start_spec(size) {
            Err(e) => Err(e),
            Ok(h) => match text_bytes(t, n.tag@) {
                Err(e) => Err(e),
                Ok(tag) => match real_attr_list(t, sort_attrs(n.attrs@)) {
                    Err(e) => Err(e),
                    Ok(a) => {
                        let head = h + tag + a;
                        match &n.content {
                            NodeContent::Empty => Ok(head),
                            NodeContent::Bytes(b) => match byte_length_spec(b@.len()) {
                                Err(e) => Err(e),
                                Ok(l) => Ok(head + l + b@),
                            },
                            NodeContent::Nodes(v) => match list_start_spec(v@.len()) {
                                Err(e) => Err(e),
                                Ok(l) => match real_children_spec(t, n, 0) {
                                    Err(e) => Err(e),
                                    Ok(c) => Ok(head + l + c),
                                },
                            },
                        }
                    },
                },
            },
        }
    }
}

/// Encoding of the children of `parent` from index `i` on.
pub open spec fn real_children_spec(t: TablesView, parent: &BinaryNode, i: int) -> Result<Seq<u8>, BinaryNodeError>
    decreases parent, 0int, (match &parent.content {
        NodeContent::Nodes(v) => v@.len() - i,
        _ => 0,
    }),
{
    match &parent.content {
        NodeContent::Nodes(v) => if i < 0 || i >= v@.len() {
            Ok(Seq::empty())
        } else {
            match encode_real_node_spec(t, &v@[i]) {
                Err(e) => Err(e),
                Ok(b) => match real_children_spec(t, parent, i + 1) {
                    Err(e) => Err(e),
                    Ok(rest) => Ok(b + rest),
                },
            }
        },
        _ => Ok(Seq::empty()),
    }
}

/// A whole uncompressed frame: the flag byte `0`, then the node.
pub open spec fn encode_real_spec(t: TablesView, n: &BinaryNode) -> Result<Seq<u8>, BinaryNodeError> {
    match encode_real_node_spec(t, n) {
        Err(e) => Err(e),
        Ok(b) => Ok(seq![0u8] + b),
    }
}

// ---------------------------------------------------------------------------
// Encoder
// ---------------------------------------------------------------------------

/// Whether a string packs as nibble digits.
pub fn is_nibble(value: &str) -> (r: bool)
    ensures
        r == is_nibble_spec(encode_utf8(value@)),
{
    let bytes = value.as_bytes();
    if bytes.len() == 0 || bytes.len() > 127 {
        return false;
    }
    let mut i: usize = 0;
    while i < bytes.len()
        invariant
            i <= bytes@.len(),
            bytes@ == encode_utf8(value@),
            forall|k: int| 0 <= k < i ==> (48 <= #[trigger] bytes@[k] <= 57 || bytes@[k] == 45 || bytes@[k] == 46),
        decreases bytes@.len() - i,
    {
        let c = bytes[i];
        if !((48 <= c && c <= 57) || c == 45 || c == 46) {
            return false;
        }
        i += 1;
    }
    true
}

/// Whether a string packs as upper-case hexadecimal digits.
pub fn is_hex(value: &str) -> (r: bool)
    ensures
        r == is_hex_spec(encode_utf8(value@)),
{
    let bytes = value.as_bytes();
    if bytes.len() == 0 || bytes.len() > 127 {
        return false;
    }
    let mut i: usize = 0;
    while i < bytes.len()
        invariant
            i <= bytes@.len(),
            bytes@ == encode_utf8(value@),
            forall|k: int| 0 <= k < i ==> (48 <= #[trigger] bytes@[k] <= 57 || (65 <= bytes@[k] <= 70)),
        decreases bytes@.len() - i,
    {
        let c = bytes[i];
        if !((48 <= c && c <= 57) || (65 <= c && c <= 70)) {
            return false;
        }
        i += 1;
    }
    true
}

/// Nibble of a character under a packing tag.
pub fn pack_char(value: char, tag: u8) -> (r: Result<u8, BinaryNodeError>)
    ensures
        r == pack_char_spec(value, tag),
{
    match WaTag::from_u8(tag) {
        Some(WaTag::Nibble8) => {
            if '0' <= value && value <= '9' {
                Ok((value as u32 - 48) as u8)
            } else if value == '-' {
                Ok(10)
            } else if value == '.' {
                Ok(11)
            } else if value == '\0' {
                Ok(15)
            } else {
                Err(BinaryNodeError::InvalidPackedChar(value as u8))
            }
        },
        Some(WaTag::Hex8) => {
            if '0' <= value && value <= '9' {
                Ok((value as u32 - 48) as u8)
            } else if 'A' <= value && value <= 'F' {
                Ok((10 + (value as u32 - 65)) as u8)
            } else if 'a' <= value && value <= 'f' {
                Ok((10 + (value as u32 - 97)) as u8)
            } else if value == '\0' {
                Ok(15)
            } else {
                Err(BinaryNodeError::InvalidPackedChar(value as u8))
            }
        },
        _ => Err(BinaryNodeError::InvalidListTag(tag)),
    }
}

/// Parts of a JID, as [`jid_decode`] reads them.
pub struct DecodedJid {
    pub user: String,
    pub server: String,
    pub device: Option<u16>,
    pub domain_type: u8,
}

impl View for DecodedJid {
    type V = JidView;

    open spec fn view(&self) -> JidView {
        JidView { user: self.user@, server: self.server@, device: self.device, domain_type: self.domain_type }
    }
}

/// Splits a JID into user, server, device and domain type (see [`jid_decode_spec`]).
pub fn jid_decode(value: &str) -> (r: Option<DecodedJid>)
    ensures
        match jid_decode_spec(value@) {
            Some(j) => r matches Some(d) && d@ == j,
            None => r is None,
        },
{
    let (user_part, server) = split_once_char(value, '@')?;
    let (user_agent, device) = match split_once_char(user_part, ':') {
        Some((ua, raw)) => {
            let digits = str_chars(raw);
            match parse_unsigned(digits.as_slice(), 65535) {
                Some(d) => (ua, Some(d as u16)),
                None => return None,
            }
        },
        None => (user_part, None),
    };
    let (user, agent) = match split_once_char(user_agent, '_') {
        Some((u, a)) => (u, Some(a)),
        None => (user_agent, None),
    };
    let domain_type: u8 = if str_eq(server, "lid") {
        1
    } else if str_eq(server, "hosted") {
        128
    } else if str_eq(server, "hosted.lid") {
        129
    } else {
        match agent {
            Some(a) => {
                let digits = str_chars(a);
                match parse_unsigned(digits.as_slice(), 255) {
                    Some(x) => x as u8,
                    None => 0,
                }
            },
            None => 0,
        }
    };
    Some(DecodedJid { user: user.to_owned(), server: server.to_owned(), device, domain_type })
}

proof fn lemma_jid_decode_shorter(v: Seq<char>)
    ensures
        jid_decode_spec(v) matches Some(j) ==> j.user.len() + j.server.len() + 1 <= v.len(),
{
    crate::text::lemma_char_index(v, '@');
    if let Some((up, server)) = split_once_spec(v, '@') {
        crate::text::lemma_char_index(up, ':');
        let ua = match split_once_spec(up, ':') {
            Some((ua, d)) => ua,
            None => up,
        };
        crate::text::lemma_char_index(ua, '_');
    }
}

proof fn lemma_last_index_of_bound(row: Seq<Seq<char>>, v: Seq<char>, n: int)
    ensures
        last_index_of(row, v, n) matches Some(i) ==> 0 <= i < n,
    decreases n,
{
    if n > 0 {
        lemma_last_index_of_bound(row, v, n - 1);
    }
}

proof fn lemma_double_lookup_bound(double: Seq<Seq<Seq<char>>>, v: Seq<char>, d: int)
    requires
        d <= 4,
    ensures
        double_lookup(double, v, d) matches Some((x, i)) ==> 0 <= x < d,
    decreases d,
{
    if d > 0 {
        lemma_double_lookup_bound(double, v, d - 1);
    }
}

proof fn lemma_pow256_pos(n: nat)
    ensures
        pow256(n) > 0,
    decreases n,
{
    if n > 0 {
        lemma_pow256_pos((n - 1) as nat);
    }
}

proof fn lemma_encode_utf8_len(v: Seq<char>)
    ensures
        encode_utf8(v).len() >= v.len(),
    decreases v.len(),
{
    if v.len() > 0 {
        lemma_encode_utf8_len(v.drop_first());
    }
}

/// Last index below `n` at which `row` holds `value`.
fn last_index(row: &Vec<String>, value: &str, n: usize) -> (r: Option<usize>)
    requires
        n <= row@.len(),
    ensures
        match last_index_of(Seq::new(row@.len(), |i: int| row@[i]@), value@, n as int) {
            Some(i) => r == Some(i as usize) && 0 <= i < n,
            None => r is None,
        },
{
    proof {
        lemma_last_index_of_bound(Seq::new(row@.len(), |i: int| row@[i]@), value@, n as int);
    }
    let ghost rv = Seq::new(row@.len(), |i: int| row@[i]@);
    let mut k: usize = n;
    while k > 0
        invariant
            k <= n <= row@.len(),
            rv == Seq::new(row@.len(), |i: int| row@[i]@),
            last_index_of(rv, value@, n as int) == last_index_of(rv, value@, k as int),
        decreases k,
    {
        if str_eq(row[k - 1].as_str(), value) {
            return Some(k - 1);
        }
        k -= 1;
    }
    None
}

/// Token reference of a string in the dictionaries (see [`token_lookup`]).
pub fn wa_token_lookup(tables: &TokenTables, value: &str) -> (r: Option<(Option<u8>, u8)>)
    requires
        tables.wf(),
    ensures
        r == token_lookup(tables@, value@),
{
    let ghost t = tables@;
    let mut d: usize = tables.double.len();
    while d > 0
        invariant
            d <= tables.double@.len() <= 4,
            t == tables@,
            tables.wf(),
            double_lookup(t.double, value@, t.double.len() as int) == double_lookup(t.double, value@, d as int),
        decreases d,
    {
        let row = &tables.double[d - 1];
        let limit = if row.len() < 256 { row.len() } else { 256 };
        assert(t.double[d - 1] == Seq::new(row@.len(), |i: int| row@[i]@));
        match last_index(row, value, limit) {
            Some(i) => {
                return Some((Some((d - 1) as u8), i as u8));
            },
            None => {},
        }
        d -= 1;
    }
    let limit = if tables.single.len() < 256 { tables.single.len() } else { 256 };
    match last_index(&tables.single, value, limit) {
        Some(i) => Some((None, i as u8)),
        None => None,
    }
}

/// Appends the `n` low bytes of `value`, most significant first.
pub fn push_be(out: &mut Vec<u8>, value: usize, n: usize)
    requires
        n <= 4,
    ensures
        final(out)@ == old(out)@ + be_bytes(value as nat, n as nat),
{
    let mut digits: Vec<u8> = Vec::new();
    let mut v: usize = value;
    let mut j: usize = 0;
    proof {
        lemma_pow256_values();
        assert(pow256(0) == 1);
        assert(value as nat / 1 == value as nat);
    }
    while j < n
        invariant
            j <= n <= 4,
            v as nat == value as nat / pow256(j as nat),
            digits@.len() == j,
            forall|k: int| 0 <= k < j ==> #[trigger] digits@[k] == ((value as nat / pow256(k as nat)) % 256) as u8,
        decreases n - j,
    {
        proof {
            assert(pow256((j + 1) as nat) == pow256(j as nat) * 256);
            lemma_pow256_pos(j as nat);
            vstd::arithmetic::div_mod::lemma_div_denominator(value as int, pow256(j as nat) as int, 256);
        }
        digits.push((v % 256) as u8);
        v = v / 256;
        j += 1;
    }
    let ghost start = out@;
    let mut k: usize = n;
    while k > 0
        invariant
            k <= n <= 4,
            digits@.len() == n,
            forall|i: int| 0 <= i < n ==> #[trigger] digits@[i] == ((value as nat / pow256(i as nat)) % 256) as u8,
            start == old(out)@,
            out@ == start + be_bytes(value as nat, n as nat).take((n - k) as int),
        decreases k,
    {
        k -= 1;
        out.push(digits[k]);
        assert(out@ =~= start + be_bytes(value as nat, n as nat).take((n - k) as int));
    }
    assert(be_bytes(value as nat, n as nat).take(n as int) =~= be_bytes(value as nat, n as nat));
}


/// Writer of a WA binary payload, with the token dictionaries it refers to.
pub struct RealEncoder<'a> {
    pub tables: &'a TokenTables,
    pub out: Vec<u8>,
}

impl<'a> RealEncoder<'a> {
    pub fn new(tables: &'a TokenTables) -> (r: Self)
        ensures
            r.tables == tables,
            r.out@ == Seq::<u8>::empty(),
    {
        RealEncoder { tables, out: Vec::new() }
    }

    pub fn into_inner(self) -> (r: Vec<u8>)
        ensures
            r@ == self.out@,
    {
        self.out
    }

    pub fn push_byte(&mut self, value: u8)
        ensures
            final(self).tables == old(self).tables,
            final(self).out@ == old(self).out@.push(value),
    {
        self.out.push(value);
    }

    pub fn push_bytes(&mut self, values: &[u8])
        ensures
            final(self).tables == old(self).tables,
            final(self).out@ == old(self).out@ + values@,
    {
        push_all(&mut self.out, values);
    }

    /// Appends the `n` low bytes of `value`, most significant first.
    pub fn push_int(&mut self, value: usize, n: usize)
        requires
            n <= 4,
        ensures
            final(self).tables == old(self).tables,
            final(self).out@ == old(self).out@ + be_bytes(value as nat, n as nat),
    {
        push_be(&mut self.out, value, n);
    }

    pub fn write_list_start(&mut self, size: usize) -> (r: Result<(), BinaryNodeError>)
        ensures
            final(self).tables == old(self).tables,
            match list_start_spec(size as nat) {
                Ok(b) => r is Ok && final(self).out@ == old(self).out@ + b,
                Err(e) => r == Err::<(), BinaryNodeError>(e),
            },
    {
        if size == 0 {
            self.push_byte(TAG_LIST_EMPTY);
            assert(self.out@ =~= old(self).out@ + seq![TAG_LIST_EMPTY]);
            return Ok(());
        }
        if size < 256 {
            self.push_byte(TAG_LIST_8);
            self.push_byte(size as u8);
            assert(self.out@ =~= old(self).out@ + seq![TAG_LIST_8, size as u8]);
            return Ok(());
        }
        if size > 65535 {
            return Err(BinaryNodeError::PayloadTooLarge);
        }
        self.push_byte(TAG_LIST_16);
        self.push_byte((size / 256) as u8);
        self.push_byte((size % 256) as u8);
        assert(self.out@ =~= old(self).out@ + seq![TAG_LIST_16, (size / 256) as u8, (size % 256) as u8]);
        Ok(())
    }

    pub fn write_byte_length(&mut self, length: usize) -> (r: Result<(), BinaryNodeError>)
        ensures
            final(self).tables == old(self).tables,
            match byte_length_spec(length as nat) {
                Ok(b) => r is Ok && final(self).out@ == old(self).out@ + b,
                Err(e) => r == Err::<(), BinaryNodeError>(e),
            },
    {
        if length as u64 >= 4294967296 {
            return Err(BinaryNodeError::PayloadTooLarge);
        }
        if length >= 1048576 {
            self.push_byte(TAG_BINARY_32);
            self.push_int(length, 4);
            assert(self.out@ =~= old(self).out@ + (seq![TAG_BINARY_32] + be_bytes(length as nat, 4)));
        } else if length >= 256 {
            self.push_byte(TAG_BINARY_20);
            self.push_byte((length / 65536) as u8);
            self.push_byte(((length / 256) % 256) as u8);
            self.push_byte((length % 256) as u8);
            assert(self.out@ =~= old(self).out@ + seq![
                TAG_BINARY_20,
                (length / 65536) as u8,
                ((length / 256) % 256) as u8,
                (length % 256) as u8,
            ]);
        } else {
            self.push_byte(TAG_BINARY_8);
            self.push_byte(length as u8);
            assert(self.out@ =~= old(self).out@ + seq![TAG_BINARY_8, length as u8]);
        }
        Ok(())
    }

    pub fn write_string_raw(&mut self, value: &str) -> (r: Result<(), BinaryNodeError>)
        ensures
            final(self).tables == old(self).tables,
            match write_raw_spec(value@) {
                Ok(b) => r is Ok && final(self).out@ == old(self).out@ + b,
                Err(e) => r == Err::<(), BinaryNodeError>(e),
            },
    {
        let bytes = value.as_bytes();
        self.write_byte_length(bytes.len())?;
        self.push_bytes(bytes);
        assert(self.out@ =~= old(self).out@ + (byte_length_spec(encode_utf8(value@).len())->Ok_0 + encode_utf8(value@)));
        Ok(())
    }

    pub fn write_packed_bytes(&mut self, value: &str, tag: u8) -> (r: Result<(), BinaryNodeError>)
        ensures
            final(self).tables == old(self).tables,
            match write_packed_spec(value@, tag) {
                Ok(b) => r is Ok && final(self).out@ == old(self).out@ + b,
                Err(e) => r == Err::<(), BinaryNodeError>(e),
            },
    {
        let len = value.as_bytes().len();
        if len > 127 {
            return Err(BinaryNodeError::SymbolTooLong);
        }
        let ghost start = self.out@;
        self.push_byte(tag);
        let mut rounded: u8 = ((len + 1) / 2) as u8;
        if len % 2 != 0 {
            rounded = rounded + 128;
        }
        self.push_byte(rounded);
        let ghost head = self.out@;
        let chars = str_chars(value);
        proof {
            lemma_encode_utf8_len(value@);
        }
        let mut i: usize = 0;
        while i < chars.len()
            invariant
                chars@ == value@,
                chars@.len() <= 127,
                encode_utf8(value@).len() <= 127,
                i <= chars@.len() + 1,
                i % 2 == 0,
                self.tables == old(self).tables,
                packed_pairs(value@, tag, 0) == (match packed_pairs(value@, tag, i as int) {
                    Err(e) => Err(e),
                    Ok(rest) => Ok(self.out@.subrange(head.len() as int, self.out@.len() as int) + rest),
                }),
                head.len() <= self.out@.len(),
                self.out@.subrange(0, head.len() as int) == head,
            decreases chars@.len() + 1 - i,
        {
            let ghost before = self.out@;
            let left = match pack_char(chars[i], tag) {
                Ok(v) => v,
                Err(e) => return Err(e),
            };
            let right = if i + 1 < chars.len() {
                match pack_char(chars[i + 1], tag) {
                    Ok(v) => v,
                    Err(e) => return Err(e),
                }
            } else {
                15
            };
            proof {
                assert(left < 16 && right < 16) by {
                    assert(pack_char_spec(chars@[i as int], tag) == Ok::<u8, BinaryNodeError>(left));
                }
            }
            self.push_byte(left * 16 + right);
            proof {
                assert(self.out@.subrange(head.len() as int, self.out@.len() as int) =~= before.subrange(
                    head.len() as int,
                    before.len() as int,
                ) + seq![(left * 16 + right) as u8]);
                assert(self.out@.subrange(0, head.len() as int) =~= head);
                match packed_pairs(value@, tag, i + 2) {
                    Err(e) => {},
                    Ok(rest) => {
                        assert(before.subrange(head.len() as int, before.len() as int) + (seq![(left * 16 + right) as u8] + rest)
                            =~= before.subrange(head.len() as int, before.len() as int) + seq![(left * 16 + right) as u8] + rest);
                    },
                }
            }
            i += 2;
        }
        proof {
            let p = self.out@.subrange(head.len() as int, self.out@.len() as int);
            assert(p + Seq::<u8>::empty() =~= p);
            assert(self.out@ =~= head + p);
            assert(head =~= start + seq![tag, rounded]);
            assert(self.out@ =~= start + (seq![tag, rounded] + p));
        }
        Ok(())
    }
}

impl<'a> RealEncoder<'a> {
    pub fn write_string(&mut self, value: &str) -> (r: Result<(), BinaryNodeError>)
        requires
            old(self).tables.wf(),
        ensures
            final(self).tables == old(self).tables,
            match write_string_spec(old(self).tables@, value@) {
                Ok(b) => r is Ok && final(self).out@ == old(self).out@ + b,
                Err(e) => r == Err::<(), BinaryNodeError>(e),
            },
            match text_bytes(old(self).tables@, value@) {
                Ok(b) => r is Ok && final(self).out@ == old(self).out@ + b,
                Err(e) => r == Err::<(), BinaryNodeError>(e),
            },
        decreases value@.len(), 1int,
    {
        proof {
            reveal(text_bytes);
        }
        if value.unicode_len() == 0 {
            return self.write_string_raw(value);
        }
        proof {
            lemma_double_lookup_bound(self.tables@.double, value@, self.tables@.double.len() as int);
        }
        match wa_token_lookup(self.tables, value) {
            Some((Some(dict), index)) => {
                self.push_byte(TAG_DICTIONARY_0 + dict);
                self.push_byte(index);
                assert(self.out@ =~= old(self).out@ + seq![(TAG_DICTIONARY_0 + dict) as u8, index]);
                return Ok(());
            },
            Some((None, index)) => {
                self.push_byte(index);
                assert(self.out@ =~= old(self).out@ + seq![index]);
                return Ok(());
            },
            None => {},
        }
        if is_nibble(value) {
            return self.write_packed_bytes(value, TAG_NIBBLE_8);
        }
        if is_hex(value) {
            return self.write_packed_bytes(value, TAG_HEX_8);
        }
        proof {
            lemma_jid_decode_shorter(value@);
        }
        match jid_decode(value) {
            Some(jid) => self.write_jid(&jid),
            None => self.write_string_raw(value),
        }
    }

    pub fn write_jid(&mut self, jid: &DecodedJid) -> (r: Result<(), BinaryNodeError>)
        requires
            old(self).tables.wf(),
        ensures
            final(self).tables == old(self).tables,
            match write_jid_spec(old(self).tables@, jid@) {
                Ok(b) => r is Ok && final(self).out@ == old(self).out@ + b,
                Err(e) => r == Err::<(), BinaryNodeError>(e),
            },
        decreases jid.user@.len() + jid.server@.len() + 1, 0int,
    {
        match jid.device {
            Some(device) => {
                if device > 255 {
                    return Err(BinaryNodeError::InvalidFrame("jid device id overflow"));
                }
                self.push_byte(TAG_AD_JID);
                self.push_byte(jid.domain_type);
                self.push_byte(device as u8);
                let ghost mid = self.out@;
                self.write_string(jid.user.as_str())?;
                assert(self.out@ =~= old(self).out@ + (seq![TAG_AD_JID, jid.domain_type, device as u8] + (
                write_string_spec(self.tables@, jid.user@)->Ok_0)));
                Ok(())
            },
            None => {
                self.push_byte(TAG_JID_PAIR);
                if jid.user.as_str().unicode_len() == 0 {
                    self.push_byte(TAG_LIST_EMPTY);
                } else {
                    self.write_string(jid.user.as_str())?;
                }
                let ghost mid = self.out@;
                self.write_string(jid.server.as_str())?;
                proof {
                    let u = if jid.user@.len() == 0 {
                        seq![TAG_LIST_EMPTY]
                    } else {
                        write_string_spec(self.tables@, jid.user@)->Ok_0
                    };
                    assert(mid =~= old(self).out@ + seq![TAG_JID_PAIR] + u);
                    assert(self.out@ =~= old(self).out@ + (seq![TAG_JID_PAIR] + u + write_string_spec(
                        self.tables@,
                        jid.server@,
                    )->Ok_0));
                }
                Ok(())
            },
        }
    }

    /// Writes the attributes sorted by key.
    fn write_attrs(&mut self, attrs: &Vec<(String, String)>) -> (r: Result<(), BinaryNodeError>)
        requires
            old(self).tables.wf(),
        ensures
            final(self).tables == old(self).tables,
            match real_attr_list(old(self).tables@, sort_attrs(attrs@)) {
                Ok(b) => r is Ok && final(self).out@ == old(self).out@ + b,
                Err(e) => r == Err::<(), BinaryNodeError>(e),
            },
    {
        let order = sorted_attr_order(attrs);
        let ghost sorted = sort_attrs(attrs@);
        let ghost t = self.tables@;
        let ghost start = self.out@;
        let mut i: usize = 0;
        assert(sorted.take(0) =~= Seq::<(String, String)>::empty());
        while i < order.len()
            invariant
                i <= order@.len(),
                self.tables == old(self).tables,
                self.tables.wf(),
                t == self.tables@,
                forall|k: int| 0 <= k < order@.len() ==> order@[k] < attrs@.len(),
                permuted(attrs@, order@) == sorted,
                sorted == sort_attrs(attrs@),
                start == old(self).out@,
                real_attr_list(t, sorted.take(i as int)) is Ok,
                self.out@ == start + real_attr_list(t, sorted.take(i as int))->Ok_0,
            decreases order@.len() - i,
        {
            let index = order[i];
            let ghost prefix = sorted.take(i as int);
            proof {
                assert(sorted[i as int] == attrs@[index as int]);
                assert(sorted.take(i + 1).drop_last() =~= prefix);
                assert(sorted.take(i + 1).last() == sorted[i as int]);
            }
            match self.write_string(attrs[index].0.as_str()) {
                Ok(()) => {},
                Err(e) => {
                    proof {
                        lemma_attr_list_prefix_err(t, sorted, i as int + 1);
                    }
                    return Err(e);
                },
            }
            match self.write_string(attrs[index].1.as_str()) {
                Ok(()) => {},
                Err(e) => {
                    proof {
                        lemma_attr_list_prefix_err(t, sorted, i as int + 1);
                    }
                    return Err(e);
                },
            }
            proof {
                let k = text_bytes(t, sorted[i as int].0@)->Ok_0;
                let v = text_bytes(t, sorted[i as int].1@)->Ok_0;
                assert(self.out@ =~= start + (real_attr_list(t, prefix)->Ok_0 + k + v));
            }
            i += 1;
        }
        assert(sorted.take(order@.len() as int) =~= sorted);
        Ok(())
    }

    /// Writes the children of `node` (which must carry child nodes), in order.
    fn encode_children(&mut self, node: &BinaryNode) -> (r: Result<(), BinaryNodeError>)
        requires
            old(self).tables.wf(),
            node.content is Nodes,
        ensures
            final(self).tables == old(self).tables,
            match real_children_spec(old(self).tables@, node, 0) {
                Ok(b) => r is Ok && final(self).out@ == old(self).out@ + b,
                Err(e) => r == Err::<(), BinaryNodeError>(e),
            },
        decreases node, 0int,
    {
        let nodes = match &node.content {
            NodeContent::Nodes(v) => v,
            _ => {
                return Ok(());
            },
        };
        let ghost t = self.tables@;
        let ghost mid = self.out@;
        let mut i: usize = 0;
        assert(self.out@ =~= mid + Seq::<u8>::empty());
        while i < nodes.len()
            invariant
                i <= nodes@.len(),
                self.tables == old(self).tables,
                self.tables.wf(),
                t == self.tables@,
                node.content == NodeContent::Nodes(*nodes),
                real_children_spec(t, node, 0) == (match real_children_spec(t, node, i as int) {
                    Err(e) => Err(e),
                    Ok(rest) => Ok(self.out@.subrange(mid.len() as int, self.out@.len() as int) + rest),
                }),
                mid == old(self).out@,
                mid.len() <= self.out@.len(),
                self.out@.subrange(0, mid.len() as int) == mid,
            decreases nodes@.len() - i,
        {
            let ghost before = self.out@;
            match self.encode_node(&nodes[i]) {
                Ok(()) => {},
                Err(e) => {
                    assert(real_children_spec(t, node, i as int) == Err::<Seq<u8>, BinaryNodeError>(e));
                    return Err(e);
                },
            }
            proof {
                let b = encode_real_node_spec(t, &nodes@[i as int])->Ok_0;
                assert(self.out@.subrange(mid.len() as int, self.out@.len() as int) =~= before.subrange(
                    mid.len() as int,
                    before.len() as int,
                ) + b);
                assert(self.out@.subrange(0, mid.len() as int) =~= mid);
                match real_children_spec(t, node, i + 1) {
                    Err(e) => {},
                    Ok(rest) => {
                        assert(before.subrange(mid.len() as int, before.len() as int) + (b + rest) =~= before.subrange(
                            mid.len() as int,
                            before.len() as int,
                        ) + b + rest);
                    },
                }
            }
            i += 1;
        }
        proof {
            let c = self.out@.subrange(mid.len() as int, self.out@.len() as int);
            assert(real_children_spec(t, node, i as int) == Ok::<Seq<u8>, BinaryNodeError>(Seq::empty()));
            assert(c + Seq::<u8>::empty() =~= c);
            assert(self.out@ =~= mid + c);
        }
        Ok(())
    }

    #[verifier::spinoff_prover]
    #[verifier::rlimit(50)]
    pub fn encode_node(&mut self, node: &BinaryNode) -> (r: Result<(), BinaryNodeError>)
        requires
            old(self).tables.wf(),
        ensures
            final(self).tables == old(self).tables,
            match encode_real_node_spec(old(self).tables@, node) {
                Ok(b) => r is Ok && final(self).out@ == old(self).out@ + b,
                Err(e) => r == Err::<(), BinaryNodeError>(e),
            },
        decreases node, 1int,
    {
        if node.tag.as_str().unicode_len() == 0 {
            return Err(BinaryNodeError::InvalidFrame("node tag cannot be empty"));
        }
        if node.attrs.len() > 32767 {
            return Err(BinaryNodeError::PayloadTooLarge);
        }
        let content_present: usize = match &node.content {
            NodeContent::Empty => 0,
            _ => 1,
        };
        let list_size = node.attrs.len() * 2 + 1 + content_present;
        let ghost start = self.out@;
        self.write_list_start(list_size)?;
        self.write_string(node.tag.as_str())?;
        self.write_attrs(&node.attrs)?;
        let ghost head = self.out@.subrange(start.len() as int, self.out@.len() as int);
        assert(self.out@ =~= start + head);
        match &node.content {
            NodeContent::Empty => {},
            NodeContent::Bytes(bytes) => {
                self.write_byte_length(bytes.len())?;
                self.push_bytes(bytes.as_slice());
                assert(self.out@ =~= start + (head + byte_length_spec(bytes@.len())->Ok_0 + bytes@));
            },
            NodeContent::Nodes(nodes) => {
                self.write_list_start(nodes.len())?;
                let ghost mid = self.out@;
                self.encode_children(node)?;
                proof {
                    let l = list_start_spec(nodes@.len())->Ok_0;
                    let c = real_children_spec(self.tables@, node, 0)->Ok_0;
                    assert(self.out@ =~= start + (head + l + c));
                }
            },
        }
        Ok(())
    }
}

proof fn lemma_attr_list_prefix_err(t: TablesView, s: Seq<(String, String)>, i: int)
    requires
        0 <= i <= s.len(),
        real_attr_list(t, s.take(i)) is Err,
    ensures
        real_attr_list(t, s) == real_attr_list(t, s.take(i)),
    decreases s.len() - i,
{
    if i < s.len() {
        assert(s.take(i + 1).drop_last() =~= s.take(i));
        lemma_attr_list_prefix_err(t, s, i + 1);
    } else {
        assert(s.take(i) =~= s);
    }
}

/// Encodes a node as an uncompressed WA binary frame (flag byte `0`, then the node).
pub fn encode_real(tables: &TokenTables, node: &BinaryNode) -> (r: Result<Vec<u8>, BinaryNodeError>)
    requires
        tables.wf(),
    ensures
        match encode_real_spec(tables@, node) {
            Ok(b) => r matches Ok(v) && v@ == b,
            Err(e) => r == Err::<Vec<u8>, BinaryNodeError>(e),
        },
{
    let mut encoder = RealEncoder::new(tables);
    encoder.push_byte(0);
    encoder.encode_node(node)?;
    Ok(encoder.into_inner())
}

} // verus!
