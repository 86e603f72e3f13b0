use vstd::prelude::*;
use vstd::utf8::*;

use crate::error::BinaryNodeError;
use crate::text::{push_all, string_from_utf8};

verus! {

/// Proprietary WA binary node structure.
///
/// Attributes are kept as a list of key/value pairs; a well-formed node
/// (see [`BinaryNode::wf`]) never repeats a key, so the list stands for a map.
#[derive(Debug, PartialEq, Eq)]
pub struct BinaryNode {
    /// Node tag.
    pub tag: String,
    /// Node attributes.
    pub attrs: Vec<(String, String)>,
    /// Node body.
    pub content: NodeContent,
}

/// Body content carried by a [`BinaryNode`].
#[derive(Debug, PartialEq, Eq)]
pub enum NodeContent {
    /// Nested child nodes.
    Nodes(Vec<BinaryNode>),
    /// Raw payload bytes.
    Bytes(Vec<u8>),
    /// No body.
    Empty,
}

/// Mathematical model of a node: tag, attribute map and content.
pub struct NodeView {
    pub tag: Seq<char>,
    pub attrs: Map<Seq<char>, Seq<char>>,
    pub content: ContentView,
}

/// Mathematical model of a node body.
pub enum ContentView {
    Nodes(Seq<NodeView>),
    Bytes(Seq<u8>),
    Empty,
}

/// The map denoted by an attribute list: later pairs override earlier ones.
pub open spec fn attrs_map(s: Seq<(String, String)>) -> Map<Seq<char>, Seq<char>>
    decreases s.len(),
{
    if s.len() == 0 {
        Map::empty()
    } else {
        attrs_map(s.drop_last()).insert(s.last().0@, s.last().1@)
    }
}

/// No key occurs twice in an attribute list.
pub open spec fn attrs_distinct(s: Seq<(String, String)>) -> bool {
    forall|i: int, j: int| 0 <= i < s.len() && 0 <= j < s.len() && i != j ==> s[i].0@ != s[j].0@
}

pub open spec fn node_view(n: &BinaryNode) -> NodeView
    decreases n,
{
    NodeView {
        tag: n.tag@,
        attrs: attrs_map(n.attrs@),
        content: match &n.content {
            NodeContent::Nodes(v) => ContentView::Nodes(
                Seq::new(
                    v@.len(),
                    |i: int|
                        if 0 <= i < v@.len() {
                            node_view(&v@[i])
                        } else {
                            NodeView { tag: Seq::empty(), attrs: Map::empty(), content: ContentView::Empty }
                        },
                ),
            ),
            NodeContent::Bytes(b) => ContentView::Bytes(b@),
            NodeContent::Empty => ContentView::Empty,
        },
    }
}

/// A node is well formed when no node in the tree repeats an attribute key.
pub open spec fn node_wf(n: &BinaryNode) -> bool
    decreases n,
{
    &&& attrs_distinct(n.attrs@)
    &&& match &n.content {
        NodeContent::Nodes(v) => forall|i: int| 0 <= i < v@.len() ==> node_wf(&v@[i]),
        _ => true,
    }
}


/// Model of a node body (children are viewed node by node).
pub open spec fn content_view(c: &NodeContent) -> ContentView {
    match c {
        NodeContent::Nodes(v) => ContentView::Nodes(Seq::new(v@.len(), |i: int| node_view(&v@[i]))),
        NodeContent::Bytes(b) => ContentView::Bytes(b@),
        NodeContent::Empty => ContentView::Empty,
    }
}

/// Every child of a node body is well formed.
pub open spec fn content_wf(c: &NodeContent) -> bool {
    match c {
        NodeContent::Nodes(v) => forall|i: int| 0 <= i < v@.len() ==> node_wf(&#[trigger] v@[i]),
        _ => true,
    }
}

pub proof fn lemma_node_view_unfold(n: &BinaryNode)
    ensures
        node_view(n) == (NodeView { tag: n.tag@, attrs: attrs_map(n.attrs@), content: content_view(&n.content) }),
        node_wf(n) == (attrs_distinct(n.attrs@) && content_wf(&n.content)),
{
    match &n.content {
        NodeContent::Nodes(v) => {
            assert(content_view(&n.content) == ContentView::Nodes(Seq::new(v@.len(), |i: int| node_view(&v@[i]))));
            assert(node_view(n).content == content_view(&n.content)) by {
                if let ContentView::Nodes(a) = node_view(n).content {
                    assert(a =~= Seq::new(v@.len(), |i: int| node_view(&v@[i])));
                }
            }
        },
        _ => {},
    }
}

impl View for BinaryNode {
    type V = NodeView;

    open spec fn view(&self) -> NodeView {
        node_view(self)
    }
}

impl BinaryNode {
    pub open spec fn wf(&self) -> bool {
        node_wf(self)
    }
}

/// Big-endian 16-bit value at `p`.
pub open spec fn be16(s: Seq<u8>, p: int) -> int {
    s[p] as int * 256 + s[p + 1] as int
}

/// Big-endian 32-bit value at `p`.
pub open spec fn be32(s: Seq<u8>, p: int) -> int {
    s[p] as int * 16777216 + s[p + 1] as int * 65536 + s[p + 2] as int * 256 + s[p + 3] as int
}

/// Token dictionary of the synthetic format (index 0 and 12..=255 are empty).
pub open spec fn synthetic_token(i: u8) -> Seq<char> {
    if i == 1 {
        "message"@
    } else if i == 2 {
        "body"@
    } else if i == 3 {
        "to"@
    } else if i == 4 {
        "type"@
    } else if i == 5 {
        "text"@
    } else if i == 6 {
        "chat"@
    } else if i == 7 {
        "participant"@
    } else if i == 8 {
        "conversation"@
    } else if i == 9 {
        "metadata"@
    } else if i == 10 {
        "item"@
    } else if i == 11 {
        "id"@
    } else {
        ""@
    }
}

/// Exec access to the synthetic token dictionary.
pub fn synthetic_token_string(i: u8) -> (r: String)
    ensures
        r@ == synthetic_token(i),
{
    let s: &str = if i == 1 {
        "message"
    } else if i == 2 {
        "body"
    } else if i == 3 {
        "to"
    } else if i == 4 {
        "type"
    } else if i == 5 {
        "text"
    } else if i == 6 {
        "chat"
    } else if i == 7 {
        "participant"
    } else if i == 8 {
        "conversation"
    } else if i == 9 {
        "metadata"
    } else if i == 10 {
        "item"
    } else if i == 11 {
        "id"
    } else {
        ""
    };
    s.to_owned()
}

// ---------------------------------------------------------------------------
// Synthetic format: specification of the decoder
// ---------------------------------------------------------------------------

/// Reads one symbol at `p`: a token reference (`1`, index) or a raw
/// UTF-8 string (`2`, u16 length, bytes).
pub open spec fn parse_symbol(s: Seq<u8>, p: int) -> Result<(Seq<char>, int), BinaryNodeError> {
    if !(0 <= p < s.len()) {
        Err(BinaryNodeError::UnexpectedEof)
    } else if s[p] == 1u8 {
        if p + 2 > s.len() {
            Err(BinaryNodeError::UnexpectedEof)
        } else if synthetic_token(s[p + 1]).len() == 0 {
            Err(BinaryNodeError::UnknownToken(s[p + 1]))
        } else {
            Ok((synthetic_token(s[p + 1]), p + 2))
        }
    } else if s[p] == 2u8 {
        if p + 3 > s.len() {
            Err(BinaryNodeError::UnexpectedEof)
        } else if p + 3 + be16(s, p + 1) > s.len() {
            Err(BinaryNodeError::UnexpectedEof)
        } else if valid_utf8(s.subrange(p + 3, p + 3 + be16(s, p + 1))) {
            Ok((decode_utf8(s.subrange(p + 3, p + 3 + be16(s, p + 1))), p + 3 + be16(s, p + 1)))
        } else {
            Err(BinaryNodeError::InvalidUtf8)
        }
    } else {
        Err(BinaryNodeError::InvalidSymbolType(s[p]))
    }
}

/// Reads `n` key/value symbol pairs, inserting each into `m`.
pub open spec fn parse_attrs(
    s: Seq<u8>,
    p: int,
    n: nat,
    m: Map<Seq<char>, Seq<char>>,
) -> Result<(Map<Seq<char>, Seq<char>>, int), BinaryNodeError>
    decreases n,
{
    if n == 0 {
        Ok((m, p))
    } else {
        match parse_symbol(s, p) {
            Err(e) => Err(e),
            Ok((k, p1)) => match parse_symbol(s, p1) {
                Err(e) => Err(e),
                Ok((v, p2)) => parse_attrs(s, p2, (n - 1) as nat, m.insert(k, v)),
            },
        }
    }
}

/// Reads one node at `p`: tag symbol, u16 attribute count, attributes, content.
pub open spec fn parse_node(s: Seq<u8>, p: int) -> Result<(NodeView, int), BinaryNodeError>
    decreases s.len() - p, 2int, 0int,
{
    match parse_symbol(s, p) {
        Err(e) => Err(e),
        Ok((tag, p1)) => if p1 + 2 > s.len() {
            Err(BinaryNodeError::UnexpectedEof)
        } else {
            match parse_attrs(s, p1 + 2, be16(s, p1) as nat, Map::empty()) {
                Err(e) => Err(e),
                Ok((m, p2)) => if p2 < p || p2 > s.len() {
                    Err(BinaryNodeError::UnexpectedEof)
                } else {
                    match parse_content(s, p2) {
                        Err(e) => Err(e),
                        Ok((c, p3)) => Ok((NodeView { tag, attrs: m, content: c }, p3)),
                    }
                },
            }
        },
    }
}

/// Reads a node body at `p`: `0` empty, `1` u32 length and bytes, `2` u16 count and nodes.
pub open spec fn parse_content(s: Seq<u8>, p: int) -> Result<(ContentView, int), BinaryNodeError>
    decreases s.len() - p, 1int, 0int,
{
    if !(0 <= p < s.len()) {
        Err(BinaryNodeError::UnexpectedEof)
    } else if s[p] == 0u8 {
        Ok((ContentView::Empty, p + 1))
    } else if s[p] == 1u8 {
        if p + 5 > s.len() {
            Err(BinaryNodeError::UnexpectedEof)
        } else if p + 5 + be32(s, p + 1) > s.len() {
            Err(BinaryNodeError::UnexpectedEof)
        } else {
            Ok((ContentView::Bytes(s.subrange(p + 5, p + 5 + be32(s, p + 1))), p + 5 + be32(s, p + 1)))
        }
    } else if s[p] == 2u8 {
        if p + 3 > s.len() {
            Err(BinaryNodeError::UnexpectedEof)
        } else {
            match parse_nodes(s, p + 3, be16(s, p + 1) as nat, Seq::empty()) {
                Err(e) => Err(e),
                Ok((ns, q)) => Ok((ContentView::Nodes(ns), q)),
            }
        }
    } else {
        Err(BinaryNodeError::InvalidContentType(s[p]))
    }
}

/// Reads `n` consecutive nodes, appending them to `acc`.
pub open spec fn parse_nodes(s: Seq<u8>, p: int, n: nat, acc: Seq<NodeView>) -> Result<
    (Seq<NodeView>, int),
    BinaryNodeError,
>
    decreases s.len() - p, 3int, n,
{
    if n == 0 {
        Ok((acc, p))
    } else {
        match parse_node(s, p) {
            Err(e) => Err(e),
            Ok((node, p1)) => if p1 <= p || p1 > s.len() {
                Err(BinaryNodeError::UnexpectedEof)
            } else {
                parse_nodes(s, p1, (n - 1) as nat, acc.push(node))
            },
        }
    }
}

/// Result of decoding a whole synthetic payload.
pub open spec fn spec_decode_synthetic(s: Seq<u8>) -> Result<NodeView, BinaryNodeError> {
    match parse_node(s, 0) {
        Err(e) => Err(e),
        Ok((n, p)) => if p == s.len() {
            Ok(n)
        } else {
            Err(BinaryNodeError::TrailingBytes)
        },
    }
}


// ---------------------------------------------------------------------------
// Synthetic format: specification of the encoder
// ---------------------------------------------------------------------------

/// Two-byte big-endian encoding of `v` (for `0 <= v < 2^16`).
pub open spec fn u16_be(v: int) -> Seq<u8> {
    seq![(v / 256) as u8, (v % 256) as u8]
}

/// Four-byte big-endian encoding of `v` (for `0 <= v < 2^32`).
pub open spec fn u32_be(v: int) -> Seq<u8> {
    seq![(v / 16777216) as u8, (v / 65536 % 256) as u8, (v / 256 % 256) as u8, (v % 256) as u8]
}

/// First index `>= i` of the synthetic token dictionary holding `sym`.
pub open spec fn token_index_from(sym: Seq<char>, i: int) -> Option<u8>
    decreases 256 - i,
{
    if i < 0 || i >= 256 {
        None
    } else if synthetic_token(i as u8) == sym {
        Some(i as u8)
    } else {
        token_index_from(sym, i + 1)
    }
}

/// Encoding of one symbol: the token form when the dictionary holds it,
/// otherwise `2`, the u16 byte length and the UTF-8 bytes.
#[verifier::opaque]
pub open spec fn encode_symbol(sym: Seq<char>) -> Result<Seq<u8>, BinaryNodeError> {
    match token_index_from(sym, 0) {
        Some(i) => Ok(seq![1u8, i]),
        None => if encode_utf8(sym).len() > 65535 {
            Err(BinaryNodeError::SymbolTooLong)
        } else {
            Ok(seq![2u8] + u16_be(encode_utf8(sym).len() as int) + encode_utf8(sym))
        },
    }
}

/// UTF-8 bytes of an attribute key, the order in which keys are written.
pub open spec fn key_bytes(p: (String, String)) -> Seq<u8> {
    encode_utf8(p.0@)
}

/// Inserts `x` into `t` before the first element whose key is greater.
pub open spec fn insert_sorted(t: Seq<(String, String)>, x: (String, String)) -> Seq<(String, String)>
    decreases t.len(),
{
    if t.len() == 0 {
        seq![x]
    } else if crate::text::lex_lt(key_bytes(x), key_bytes(t[0])) {
        seq![x] + t
    } else {
        seq![t[0]] + insert_sorted(t.drop_first(), x)
    }
}

/// Attribute list sorted by key bytes (insertion sort).
pub open spec fn sort_attrs(s: Seq<(String, String)>) -> Seq<(String, String)>
    decreases s.len(),
{
    if s.len() == 0 {
        Seq::empty()
    } else {
        insert_sorted(sort_attrs(s.drop_last()), s.last())
    }
}

/// Encoding of key/value pairs, in list order.
pub open spec fn encode_attr_list(s: Seq<(String, String)>) -> Result<Seq<u8>, BinaryNodeError>
    decreases s.len(),
{
    if s.len() == 0 {
        Ok(Seq::empty())
    } else {
        match encode_symbol(s[0].0@) {
            Err(e) => Err(e),
            Ok(k) => match encode_symbol(s[0].1@) {
                Err(e) => Err(e),
                Ok(v) => match encode_attr_list(s.drop_first()) {
                    Err(e) => Err(e),
                    Ok(rest) => Ok(k + v + rest),
                },
            },
        }
    }
}

/// Encoding of a node: tag, u16 attribute count, attributes sorted by key, content.
pub open spec fn encode_node_spec(n: &BinaryNode) -> Result<Seq<u8>, BinaryNodeError>
    decreases n, 1int, 0int,
{
    match encode_symbol(n.tag@) {
        Err(e) => Err(e),
        Ok(t) => if n.attrs@.len() > 65535 {
            Err(BinaryNodeError::TooManyAttributes)
        } else {
            match encode_attr_list(sort_attrs(n.attrs@)) {
                Err(e) => Err(e),
                Ok(a) => {
                    let head = t + u16_be(n.attrs@.len() as int) + a;
                    match &n.content {
                        NodeContent::Empty => Ok(head + seq![0u8]),
                        NodeContent::Bytes(b) => if b@.len() > 4294967295 {
                            Err(BinaryNodeError::PayloadTooLarge)
                        } else {
                            Ok(head + seq![1u8] + u32_be(b@.len() as int) + b@)
                        },
                        NodeContent::Nodes(v) => if v@.len() > 65535 {
                            Err(BinaryNodeError::TooManyChildren)
                        } else {
                            match encode_children_spec(n, 0) {
                                Err(e) => Err(e),
                                Ok(c) => Ok(head + seq![2u8] + u16_be(v@.len() as int) + c),
                            }
                        },
                    }
                },
            }
        },
    }
}

/// Encoding of the children of `parent` from index `i` on.
pub open spec fn encode_children_spec(parent: &BinaryNode, i: int) -> Result<Seq<u8>, BinaryNodeError>
    decreases parent, 0int, (match &parent.content {
        NodeContent::Nodes(v) => v@.len() - i,
        _ => 0,
    }),
{
    match &parent.content {
        NodeContent::Nodes(v) => if i < 0 || i >= v@.len() {
            Ok(Seq::empty())
        } else {
            match encode_node_spec(&v@[i]) {
                Err(e) => Err(e),
                Ok(b) => match encode_children_spec(parent, i + 1) {
                    Err(e) => Err(e),
                    Ok(rest) => Ok(b + rest),
                },
            }
        },
        _ => Ok(Seq::empty()),
    }
}

// ---------------------------------------------------------------------------
// Attribute list helpers
// ---------------------------------------------------------------------------

/// The map of an attribute list holds the value of the last pair with a key.
pub proof fn lemma_attrs_map_last(s: Seq<(String, String)>, k: Seq<char>, j: int)
    requires
        -1 <= j < s.len(),
        j >= 0 ==> s[j].0@ == k,
        forall|i: int| j < i < s.len() ==> s[i].0@ != k,
    ensures
        j >= 0 ==> attrs_map(s).contains_key(k) && attrs_map(s)[k] == s[j].1@,
        j < 0 ==> !attrs_map(s).contains_key(k),
    decreases s.len(),
{
    if s.len() > 0 && j < s.len() - 1 {
        lemma_attrs_map_last(s.drop_last(), k, j);
    }
}

proof fn lemma_attrs_map_update(s: Seq<(String, String)>, j: int, kv: (String, String))
    requires
        0 <= j < s.len(),
        attrs_distinct(s),
        s[j].0@ == kv.0@,
    ensures
        attrs_map(s.update(j, kv)) == attrs_map(s).insert(kv.0@, kv.1@),
    decreases s.len(),
{
    let t = s.update(j, kv);
    if j == s.len() - 1 {
        assert(t.drop_last() == s.drop_last());
        assert(attrs_map(s).insert(kv.0@, kv.1@) =~= attrs_map(s.drop_last()).insert(
            kv.0@,
            kv.1@,
        ));
    } else {
        assert(t.drop_last() == s.drop_last().update(j, kv));
        lemma_attrs_map_update(s.drop_last(), j, kv);
        assert(s.last().0@ != kv.0@);
        assert(attrs_map(t) =~= attrs_map(s).insert(kv.0@, kv.1@));
    }
}

/// Inserts or replaces an attribute, as a map insertion.
pub fn insert_attr(attrs: &mut Vec<(String, String)>, key: String, value: String)
    requires
        attrs_distinct(old(attrs)@),
    ensures
        attrs_distinct(final(attrs)@),
        attrs_map(final(attrs)@) == attrs_map(old(attrs)@).insert(key@, value@),
{
    let mut i: usize = 0;
    while i < attrs.len()
        invariant
            i <= attrs@.len(),
            attrs_distinct(attrs@),
            attrs@ == old(attrs)@,
            forall|j: int| 0 <= j < i ==> attrs@[j].0@ != key@,
        decreases attrs@.len() - i,
    {
        if attrs[i].0 == key {
            let ghost s = attrs@;
            let ghost kv = (key, value);
            proof {
                lemma_attrs_map_update(s, i as int, kv);
            }
            attrs.set(i, (key, value));
            assert(attrs@ == s.update(i as int, kv));
            assert forall|a: int, b: int|
                0 <= a < attrs@.len() && 0 <= b < attrs@.len() && a != b implies attrs@[a].0@
                != attrs@[b].0@ by {
                assert(s[a].0@ != s[b].0@);
            }
            return ;
        }
        i += 1;
    }
    let ghost s = attrs@;
    attrs.push((key, value));
    assert(attrs@.drop_last() == s);
}

// ---------------------------------------------------------------------------
// Synthetic format: decoder
// ---------------------------------------------------------------------------

/// Cursor over a synthetic payload.
pub struct SyntheticDecoder<'a> {
    pub input: &'a [u8],
    pub position: usize,
}

impl<'a> SyntheticDecoder<'a> {
    pub fn new(input: &'a [u8]) -> (r: Self)
        ensures
            r.input@ == input@,
            r.position == 0,
    {
        SyntheticDecoder { input, position: 0 }
    }

    pub fn is_eof(&self) -> (r: bool)
        ensures
            r == (self.position == self.input@.len()),
    {
        self.position == self.input.len()
    }

    pub fn read_u8(&mut self) -> (r: Result<u8, BinaryNodeError>)
        requires
            old(self).position <= old(self).input@.len(),
        ensures
            final(self).input == old(self).input,
            final(self).position <= final(self).input@.len(),
            old(self).position < old(self).input@.len() ==> r == Ok::<u8, BinaryNodeError>(
                old(self).input@[old(self).position as int],
            ) && final(self).position == old(self).position + 1,
            old(self).position >= old(self).input@.len() ==> r == Err::<u8, BinaryNodeError>(
                BinaryNodeError::UnexpectedEof,
            ) && final(self).position == old(self).position,
    {
        if self.position < self.input.len() {
            let b = self.input[self.position];
            self.position = self.position + 1;
            Ok(b)
        } else {
            Err(BinaryNodeError::UnexpectedEof)
        }
    }

    pub fn read_bytes(&mut self, len: usize) -> (r: Result<&'a [u8], BinaryNodeError>)
        requires
            old(self).position <= old(self).input@.len(),
        ensures
            final(self).input == old(self).input,
            final(self).position <= final(self).input@.len(),
            old(self).position + len <= old(self).input@.len() ==> r is Ok && r->Ok_0@
                == old(self).input@.subrange(
                old(self).position as int,
                old(self).position + len,
            ) && final(self).position == old(self).position + len,
            old(self).position + len > old(self).input@.len() ==> r == Err::<
                &'a [u8],
                BinaryNodeError,
            >(BinaryNodeError::UnexpectedEof) && final(self).position == old(self).position,
    {
        let end = match self.position.checked_add(len) {
            Some(e) => e,
            None => {
                let ghost l = self.input.len();
                return Err(BinaryNodeError::UnexpectedEof);
            },
        };
        if end > self.input.len() {
            return Err(BinaryNodeError::UnexpectedEof);
        }
        let bytes = &self.input[self.position..end];
        self.position = end;
        Ok(bytes)
    }

    pub fn read_u16(&mut self) -> (r: Result<u16, BinaryNodeError>)
        requires
            old(self).position <= old(self).input@.len(),
        ensures
            final(self).input == old(self).input,
            final(self).position <= final(self).input@.len(),
            old(self).position + 2 <= old(self).input@.len() ==> r is Ok && r->Ok_0 == be16(
                old(self).input@,
                old(self).position as int,
            ) && final(self).position == old(self).position + 2,
            old(self).position + 2 > old(self).input@.len() ==> r == Err::<u16, BinaryNodeError>(
                BinaryNodeError::UnexpectedEof,
            ),
    {
        let raw = self.read_bytes(2)?;
        Ok((raw[0] as u16) * 256 + (raw[1] as u16))
    }

    pub fn read_u32(&mut self) -> (r: Result<u32, BinaryNodeError>)
        requires
            old(self).position <= old(self).input@.len(),
        ensures
            final(self).input == old(self).input,
            final(self).position <= final(self).input@.len(),
            old(self).position + 4 <= old(self).input@.len() ==> r is Ok && r->Ok_0 == be32(
                old(self).input@,
                old(self).position as int,
            ) && final(self).position == old(self).position + 4,
            old(self).position + 4 > old(self).input@.len() ==> r == Err::<u32, BinaryNodeError>(
                BinaryNodeError::UnexpectedEof,
            ),
    {
        let raw = self.read_bytes(4)?;
        Ok((raw[0] as u32) * 16777216 + (raw[1] as u32) * 65536 + (raw[2] as u32) * 256 + (
        raw[3] as u32))
    }

    pub fn decode_symbol(&mut self) -> (r: Result<String, BinaryNodeError>)
        requires
            old(self).position <= old(self).input@.len(),
        ensures
            final(self).input == old(self).input,
            final(self).position <= final(self).input@.len(),
            match parse_symbol(old(self).input@, old(self).position as int) {
                Ok((v, p)) => r is Ok && r->Ok_0@ == v && final(self).position == p,
                Err(e) => r == Err::<String, BinaryNodeError>(e),
            },
    {
        let ghost s = self.input@;
        let ghost p = self.position as int;
        let symbol_type = self.read_u8()?;
        if symbol_type == 1 {
            let token = self.read_u8()?;
            let value = synthetic_token_string(token);
            if value.as_str().is_empty() {
                return Err(BinaryNodeError::UnknownToken(token));
            }
            Ok(value)
        } else if symbol_type == 2 {
            let len = self.read_u16()?;
            let bytes = self.read_bytes(len as usize)?;
            let owned = crate::text::bytes_to_vec(bytes);
            match string_from_utf8(owned) {
                Some(v) => Ok(v),
                None => Err(BinaryNodeError::InvalidUtf8),
            }
        } else {
            Err(BinaryNodeError::InvalidSymbolType(symbol_type))
        }
    }

    pub fn decode_node(&mut self) -> (r: Result<BinaryNode, BinaryNodeError>)
        requires
            old(self).position <= old(self).input@.len(),
        ensures
            final(self).input == old(self).input,
            final(self).position <= final(self).input@.len(),
            match parse_node(old(self).input@, old(self).position as int) {
                Ok((v, p)) => r is Ok && r->Ok_0@ == v && r->Ok_0.wf() && final(self).position == p
                    && p > old(self).position,
                Err(e) => r == Err::<BinaryNode, BinaryNodeError>(e),
            },
        decreases old(self).input@.len() - old(self).position,
    {
        let ghost s = self.input@;
        let ghost inp = self.input;
        let ghost p0 = self.position as int;
        let tag = self.decode_symbol()?;
        let ghost p1 = self.position as int;
        let attrs_count = self.read_u16()?;
        assert(attrs_map(Seq::<(String, String)>::empty()) == Map::<Seq<char>, Seq<char>>::empty());
        let ghost n = attrs_count as nat;
        let mut attrs: Vec<(String, String)> = Vec::new();
        let mut i: u16 = 0;
        while i < attrs_count
            invariant
                self.input == old(self).input,
                self.input@ == s,
                s == old(self).input@,
                p0 == old(self).position,
                parse_symbol(s, p0) == Ok::<(Seq<char>, int), BinaryNodeError>((tag@, p1)),
                p1 + 2 <= s.len(),
                n == be16(s, p1),
                n == attrs_count,
                p1 + 2 <= self.position <= s.len(),
                i <= attrs_count,
                attrs_distinct(attrs@),
                parse_attrs(s, p1 + 2, n, Map::empty()) == parse_attrs(
                    s,
                    self.position as int,
                    (n - i) as nat,
                    attrs_map(attrs@),
                ),
            decreases attrs_count - i,
        {
            let key = match self.decode_symbol() {
                Ok(k) => k,
                Err(e) => {
                    return Err(e);
                },
            };
            let value = match self.decode_symbol() {
                Ok(v) => v,
                Err(e) => {
                    return Err(e);
                },
            };
            let ghost m = attrs_map(attrs@);
            insert_attr(&mut attrs, key, value);
            i += 1;
        }
        assert(parse_attrs(s, p1 + 2, n, Map::empty()) == Ok::<(Map<Seq<char>, Seq<char>>, int), BinaryNodeError>((attrs_map(attrs@), self.position as int)));
        let ghost p2 = self.position as int;
        let content = self.decode_content()?;
        let node = BinaryNode { tag, attrs, content };
        proof {
            lemma_node_view_unfold(&node);
        }
        Ok(node)
    }

    pub fn decode_content(&mut self) -> (r: Result<NodeContent, BinaryNodeError>)
        requires
            old(self).position <= old(self).input@.len(),
        ensures
            final(self).input == old(self).input,
            final(self).position <= final(self).input@.len(),
            match parse_content(old(self).input@, old(self).position as int) {
                Ok((v, p)) => r is Ok && content_view(&r->Ok_0) == v && content_wf(&r->Ok_0)
                    && final(self).position == p && p > old(self).position,
                Err(e) => r == Err::<NodeContent, BinaryNodeError>(e),
            },
        decreases old(self).input@.len() - old(self).position,
    {
        let ghost s = self.input@;
        let ghost inp = self.input;
        let ghost p0 = self.position as int;
        let content_type = self.read_u8()?;
        if content_type == 0 {
            Ok(NodeContent::Empty)
        } else if content_type == 1 {
            let len = self.read_u32()?;
            let payload = self.read_bytes(len as usize)?;
            Ok(NodeContent::Bytes(crate::text::bytes_to_vec(payload)))
        } else if content_type == 2 {
            let count = self.read_u16()?;
            let ghost n = count as nat;
            let mut nodes: Vec<BinaryNode> = Vec::new();
            let mut i: u16 = 0;
            assert(Seq::new(nodes@.len(), |j: int| node_view(&nodes@[j])) =~= Seq::<NodeView>::empty());
            while i < count
                invariant
                    self.input == old(self).input,
                    self.input@ == s,
                    s == old(self).input@,
                    p0 == old(self).position,
                    s[p0] == 2u8,
                    n == be16(s, p0 + 1),
                    n == count,
                    p0 + 3 <= self.position <= s.len(),
                    i <= count,
                    nodes@.len() == i,
                    forall|j: int| 0 <= j < i ==> node_wf(&#[trigger] nodes@[j]),
                    parse_nodes(s, p0 + 3, n, Seq::empty()) == parse_nodes(
                        s,
                        self.position as int,
                        (n - i) as nat,
                        Seq::new(nodes@.len(), |j: int| node_view(&nodes@[j])),
                    ),
                decreases count - i,
            {
                let ghost before = Seq::new(nodes@.len(), |j: int| node_view(&nodes@[j]));
                assert(self.input@.len() - self.position < s.len() - p0);
                let ghost pos = self.position as int;
                let node = match self.decode_node() {
                    Ok(nd) => nd,
                    Err(e) => {
                        assert(parse_node(s, pos) == Err::<(NodeView, int), BinaryNodeError>(e));
                        assert((n - i) as nat > 0);
                        assert(parse_nodes(s, pos, (n - i) as nat, before) == Err::<(Seq<NodeView>, int), BinaryNodeError>(e));
                        return Err(e);
                    },
                };
                let ghost v = node_view(&node);
                assert(parse_nodes(s, pos, (n - i) as nat, before) == parse_nodes(s, self.position as int, (n - i - 1) as nat, before.push(v)));
                nodes.push(node);
                assert(Seq::new(nodes@.len(), |j: int| node_view(&nodes@[j])) =~= before.push(
                    node_view(&nodes@[i as int]),
                ));
                i += 1;
            }
            let r = NodeContent::Nodes(nodes);
            assert(content_view(&r) == ContentView::Nodes(
                Seq::new(nodes@.len(), |j: int| node_view(&nodes@[j])),
            ));
            Ok(r)
        } else {
            Err(BinaryNodeError::InvalidContentType(content_type))
        }
    }
}

// ---------------------------------------------------------------------------
// Synthetic format: encoder
// ---------------------------------------------------------------------------

/// Appends `v` as two big-endian bytes.
pub fn push_u16_be(out: &mut Vec<u8>, v: u16)
    ensures
        final(out)@ == old(out)@ + u16_be(v as int),
{
    out.push((v / 256) as u8);
    out.push((v % 256) as u8);
    assert(out@ =~= old(out)@ + u16_be(v as int));
}

/// Appends `v` as four big-endian bytes.
pub fn push_u32_be(out: &mut Vec<u8>, v: u32)
    ensures
        final(out)@ == old(out)@ + u32_be(v as int),
{
    out.push((v / 16777216) as u8);
    out.push((v / 65536 % 256) as u8);
    out.push((v / 256 % 256) as u8);
    out.push((v % 256) as u8);
    assert(out@ =~= old(out)@ + u32_be(v as int));
}

/// Index of the first dictionary token equal to `symbol`.
pub fn synthetic_token_for_symbol(symbol: &String) -> (r: Option<u8>)
    ensures
        r == token_index_from(symbol@, 0),
{
    let mut i: u16 = 0;
    while i < 256
        invariant
            i <= 256,
            token_index_from(symbol@, 0) == token_index_from(symbol@, i as int),
        decreases 256 - i,
    {
        let token = synthetic_token_string(i as u8);
        if token == *symbol {
            return Some(i as u8);
        }
        i += 1;
    }
    None
}

/// Writes one symbol in the synthetic format.
pub fn encode_synthetic_symbol(symbol: &String, output: &mut Vec<u8>) -> (r: Result<(), BinaryNodeError>)
    ensures
        match encode_symbol(symbol@) {
            Ok(b) => r is Ok && final(output)@ == old(output)@ + b,
            Err(e) => r == Err::<(), BinaryNodeError>(e),
        },
{
    proof {
        reveal(encode_symbol);
    }
    if let Some(index) = synthetic_token_for_symbol(symbol) {
        output.push(1);
        output.push(index);
        assert(output@ =~= old(output)@ + seq![1u8, index]);
        return Ok(());
    }
    let symbol_bytes = symbol.as_str().as_bytes();
    if symbol_bytes.len() > 65535 {
        return Err(BinaryNodeError::SymbolTooLong);
    }
    output.push(2);
    push_u16_be(output, symbol_bytes.len() as u16);
    push_all(output, symbol_bytes);
    assert(output@ =~= old(output)@ + (seq![2u8] + u16_be(encode_utf8(symbol@).len() as int)
        + encode_utf8(symbol@)));
    Ok(())
}

proof fn lemma_insert_sorted_at(t: Seq<(String, String)>, x: (String, String), j: int)
    requires
        0 <= j <= t.len(),
        forall|k: int| 0 <= k < j ==> !crate::text::lex_lt(key_bytes(x), #[trigger] key_bytes(t[k])),
        j < t.len() ==> crate::text::lex_lt(key_bytes(x), key_bytes(t[j])),
    ensures
        insert_sorted(t, x) == t.insert(j, x),
    decreases j,
{
    if j == 0 {
        if t.len() == 0 {
            assert(t.insert(0, x) =~= seq![x]);
        } else {
            assert(t.insert(0, x) =~= seq![x] + t);
        }
    } else {
        assert(!crate::text::lex_lt(key_bytes(x), key_bytes(t[0])));
        let u = t.drop_first();
        assert forall|k: int| 0 <= k < j - 1 implies !crate::text::lex_lt(key_bytes(x), #[trigger] key_bytes(u[k])) by {
            assert(u[k] == t[k + 1]);
        }
        lemma_insert_sorted_at(u, x, j - 1);
        assert(t.insert(j, x) =~= seq![t[0]] + u.insert(j - 1, x));
    }
}

/// The attributes listed in the order of `order`.
pub open spec fn permuted(attrs: Seq<(String, String)>, order: Seq<usize>) -> Seq<(String, String)> {
    Seq::new(order.len(), |k: int| attrs[order[k] as int])
}

/// Positions of the attributes sorted by key bytes.
pub fn sorted_attr_order(attrs: &Vec<(String, String)>) -> (r: Vec<usize>)
    ensures
        forall|k: int| 0 <= k < r@.len() ==> r@[k] < attrs@.len(),
        permuted(attrs@, r@) == sort_attrs(attrs@),
{
    let mut order: Vec<usize> = Vec::new();
    let mut i: usize = 0;
    assert(permuted(attrs@, order@) =~= sort_attrs(attrs@.take(0)));
    while i < attrs.len()
        invariant
            i <= attrs@.len(),
            forall|k: int| 0 <= k < order@.len() ==> order@[k] < i,
            permuted(attrs@, order@) == sort_attrs(attrs@.take(i as int)),
        decreases attrs@.len() - i,
    {
        let key = attrs[i].0.as_str().as_bytes();
        let ghost t = permuted(attrs@, order@);
        let mut j: usize = 0;
        while j < order.len() && !crate::text::bytes_lt(key, attrs[order[j]].0.as_str().as_bytes())
            invariant
                i < attrs@.len(),
                j <= order@.len(),
                forall|k: int| 0 <= k < order@.len() ==> order@[k] < i,
                t == permuted(attrs@, order@),
                key@ == key_bytes(attrs@[i as int]),
                forall|k: int| 0 <= k < j ==> !crate::text::lex_lt(key_bytes(attrs@[i as int]), #[trigger] key_bytes(t[k])),
            decreases order@.len() - j,
        {
            j += 1;
        }
        proof {
            lemma_insert_sorted_at(t, attrs@[i as int], j as int);
            assert(attrs@.take(i + 1).drop_last() =~= attrs@.take(i as int));
        }
        order.insert(j, i);
        assert(permuted(attrs@, order@) =~= t.insert(j as int, attrs@[i as int]));
        i += 1;
    }
    assert(attrs@.take(attrs@.len() as int) =~= attrs@);
    order
}

#[verifier::rlimit(80)]
proof fn lemma_encode_attr_list_split(s: Seq<(String, String)>, i: int)
    requires
        0 <= i < s.len(),
        encode_attr_list(s.take(i)) is Ok,
    ensures
        encode_attr_list(s.take(i + 1)) == (match encode_symbol(s[i].0@) {
            Err(e) => Err(e),
            Ok(k) => match encode_symbol(s[i].1@) {
                Err(e) => Err(e),
                Ok(v) => Ok(encode_attr_list(s.take(i))->Ok_0 + k + v),
            },
        }),
    decreases i,
{
    if i == 0 {
        assert(s.take(1).drop_first() =~= Seq::<(String, String)>::empty());
        assert(s.take(1)[0] == s[0]);
        match encode_symbol(s[0].0@) {
            Err(e) => {},
            Ok(k) => match encode_symbol(s[0].1@) {
                Err(e) => {},
                Ok(v) => {
                    assert(encode_attr_list(s.take(0)) == Ok::<Seq<u8>, BinaryNodeError>(Seq::empty()));
                    assert(Seq::<u8>::empty() + k + v =~= k + v + Seq::<u8>::empty());
                },
            },
        }
    } else {
        let t = s.drop_first();
        assert(s.take(i).drop_first() =~= t.take(i - 1));
        assert(s.take(i + 1).drop_first() =~= t.take(i));
        assert(s.take(i)[0] == s[0]);
        assert(s.take(i + 1)[0] == s[0]);
        assert(t[i - 1] == s[i]);
        let k0 = encode_symbol(s[0].0@)->Ok_0;
        let v0 = encode_symbol(s[0].1@)->Ok_0;
        lemma_encode_attr_list_split(t, i - 1);
        match encode_symbol(s[i].0@) {
            Err(e) => {},
            Ok(k) => match encode_symbol(s[i].1@) {
                Err(e) => {},
                Ok(v) => {
                    let r = encode_attr_list(t.take(i - 1))->Ok_0;
                    assert(k0 + v0 + (r + k + v) =~= (k0 + v0 + r) + k + v);
                },
            },
        }
    }
}

proof fn lemma_attr_list_prefix_err(s: Seq<(String, String)>, j: int)
    requires
        0 <= j <= s.len(),
        encode_attr_list(s.take(j)) is Err,
    ensures
        encode_attr_list(s) == encode_attr_list(s.take(j)),
    decreases j,
{
    if j == 0 {
        assert(s.take(0) =~= Seq::<(String, String)>::empty());
    } else {
        assert(s.take(j)[0] == s[0]);
        assert(s.take(j).drop_first() =~= s.drop_first().take(j - 1));
        if encode_symbol(s[0].0@) is Ok && encode_symbol(s[0].1@) is Ok {
            lemma_attr_list_prefix_err(s.drop_first(), j - 1);
        }
    }
}

/// Writes the attribute pairs in key order.
pub fn encode_synthetic_attrs(attrs: &Vec<(String, String)>, output: &mut Vec<u8>) -> (r: Result<(), BinaryNodeError>)
    ensures
        match encode_attr_list(sort_attrs(attrs@)) {
            Ok(b) => r is Ok && final(output)@ == old(output)@ + b,
            Err(e) => r == Err::<(), BinaryNodeError>(e),
        },
{
    let order = sorted_attr_order(attrs);
    let ghost sorted = sort_attrs(attrs@);
    let ghost start = output@;
    let mut i: usize = 0;
    assert(sorted.take(0) =~= Seq::<(String, String)>::empty());
    while i < order.len()
        invariant
            i <= order@.len(),
            forall|k: int| 0 <= k < order@.len() ==> order@[k] < attrs@.len(),
            permuted(attrs@, order@) == sorted,
            sorted == sort_attrs(attrs@),
            start == old(output)@,
            encode_attr_list(sorted.take(i as int)) is Ok,
            output@ == start + encode_attr_list(sorted.take(i as int))->Ok_0,
        decreases order@.len() - i,
    {
        let index = order[i];
        proof {
            lemma_encode_attr_list_split(sorted, i as int);
            assert(sorted[i as int] == attrs@[index as int]);
        }
        let ghost before = output@;
        match encode_synthetic_symbol(&attrs[index].0, output) {
            Ok(()) => {},
            Err(e) => {
                proof {
                    lemma_attr_list_prefix_err(sorted, i as int + 1);
                }
                return Err(e);
            },
        }
        match encode_synthetic_symbol(&attrs[index].1, output) {
            Ok(()) => {},
            Err(e) => {
                proof {
                    lemma_attr_list_prefix_err(sorted, i as int + 1);
                }
                return Err(e);
            },
        }
        proof {
            let k = encode_symbol(sorted[i as int].0@)->Ok_0;
            let v = encode_symbol(sorted[i as int].1@)->Ok_0;
            assert(output@ =~= start + (encode_attr_list(sorted.take(i as int))->Ok_0 + k + v));
        }
        i += 1;
    }
    assert(sorted.take(order@.len() as int) =~= sorted);
    Ok(())
}

/// Writes the children of `node` (which must carry child nodes), in order.
pub fn encode_synthetic_children(node: &BinaryNode, output: &mut Vec<u8>) -> (r: Result<(), BinaryNodeError>)
    requires
        node.content is Nodes,
    ensures
        match encode_children_spec(node, 0) {
            Ok(b) => r is Ok && final(output)@ == old(output)@ + b,
            Err(e) => r == Err::<(), BinaryNodeError>(e),
        },
    decreases node, 0int,
{
    let nodes = match &node.content {
        NodeContent::Nodes(v) => v,
        _ => {
            return Ok(());
        },
    };
    let ghost mid = output@;
    let mut i: usize = 0;
    assert(output@ =~= mid + Seq::<u8>::empty());
    while i < nodes.len()
        invariant
            i <= nodes@.len(),
            node.content == NodeContent::Nodes(*nodes),
            encode_children_spec(node, 0) == (match encode_children_spec(node, i as int) {
                Err(e) => Err(e),
                Ok(rest) => Ok(output@.subrange(mid.len() as int, output@.len() as int) + rest),
            }),
            mid == old(output)@,
            mid.len() <= output@.len(),
            output@.subrange(0, mid.len() as int) == mid,
        decreases nodes@.len() - i,
    {
        let ghost before = output@;
        match encode_synthetic_node(&nodes[i], output) {
            Ok(()) => {},
            Err(e) => {
                assert(encode_children_spec(node, i as int) == Err::<Seq<u8>, BinaryNodeError>(e));
                return Err(e);
            },
        }
        proof {
            let b = encode_node_spec(&nodes@[i as int])->Ok_0;
            assert(output@.subrange(mid.len() as int, output@.len() as int) =~= before.subrange(mid.len() as int, before.len() as int) + b);
            assert(output@.subrange(0, mid.len() as int) =~= mid);
            match encode_children_spec(node, i + 1) {
                Err(e) => {},
                Ok(rest) => {
                    assert(before.subrange(mid.len() as int, before.len() as int) + (b + rest) =~= before.subrange(mid.len() as int, before.len() as int) + b + rest);
                },
            }
        }
        i += 1;
    }
    proof {
        let c = output@.subrange(mid.len() as int, output@.len() as int);
        assert(encode_children_spec(node, i as int) == Ok::<Seq<u8>, BinaryNodeError>(Seq::empty()));
        assert(c + Seq::<u8>::empty() =~= c);
        assert(output@ =~= mid + c);
    }
    Ok(())
}

/// Writes one node (recursively) in the synthetic format.
pub fn encode_synthetic_node(node: &BinaryNode, output: &mut Vec<u8>) -> (r: Result<(), BinaryNodeError>)
    ensures
        match encode_node_spec(node) {
            Ok(b) => r is Ok && final(output)@ == old(output)@ + b,
            Err(e) => r == Err::<(), BinaryNodeError>(e),
        },
    decreases node, 1int,
{
    let ghost start = output@;
    encode_synthetic_symbol(&node.tag, output)?;
    if node.attrs.len() > 65535 {
        return Err(BinaryNodeError::TooManyAttributes);
    }
    push_u16_be(output, node.attrs.len() as u16);
    encode_synthetic_attrs(&node.attrs, output)?;
    let ghost head = output@.subrange(start.len() as int, output@.len() as int);
    assert(output@ =~= start + head);
    match &node.content {
        NodeContent::Empty => {
            output.push(0);
            assert(output@ =~= start + (head + seq![0u8]));
        },
        NodeContent::Bytes(payload) => {
            if payload.len() > 4294967295 {
                return Err(BinaryNodeError::PayloadTooLarge);
            }
            output.push(1);
            push_u32_be(output, payload.len() as u32);
            push_all(output, payload.as_slice());
            assert(output@ =~= start + (head + seq![1u8] + u32_be(payload@.len() as int) + payload@));
        },
        NodeContent::Nodes(nodes) => {
            if nodes.len() > 65535 {
                return Err(BinaryNodeError::TooManyChildren);
            }
            output.push(2);
            push_u16_be(output, nodes.len() as u16);
            let ghost mid = output@;
            assert(mid =~= start + head + seq![2u8] + u16_be(nodes@.len() as int));
            encode_synthetic_children(node, output)?;
            proof {
                let c = encode_children_spec(node, 0)->Ok_0;
                assert(output@ =~= start + (head + seq![2u8] + u16_be(nodes@.len() as int) + c));
            }
        },
    }
    Ok(())
}

/// Decodes payload in the local synthetic fixture format.
pub fn decode_synthetic(input: &[u8]) -> (r: Result<BinaryNode, BinaryNodeError>)
    ensures
        match spec_decode_synthetic(input@) {
            Ok(v) => r is Ok && r->Ok_0@ == v && r->Ok_0.wf(),
            Err(e) => r == Err::<BinaryNode, BinaryNodeError>(e),
        },
{
    let mut decoder = SyntheticDecoder::new(input);
    let node = decoder.decode_node()?;
    if !decoder.is_eof() {
        return Err(BinaryNodeError::TrailingBytes);
    }
    Ok(node)
}

/// Encodes payload in the local synthetic fixture format.
pub fn encode_synthetic(node: &BinaryNode) -> (r: Result<Vec<u8>, BinaryNodeError>)
    ensures
        match encode_node_spec(node) {
            Ok(b) => r is Ok && r->Ok_0@ == b,
            Err(e) => r == Err::<Vec<u8>, BinaryNodeError>(e),
        },
{
    let mut output: Vec<u8> = Vec::new();
    encode_synthetic_node(node, &mut output)?;
    assert(output@ =~= Seq::<u8>::empty() + encode_node_spec(node)->Ok_0);
    Ok(output)
}

/// Decodes a synthetic payload into a [`BinaryNode`].
pub fn decode(input: &[u8]) -> (r: Result<BinaryNode, BinaryNodeError>)
    ensures
        match spec_decode_synthetic(input@) {
            Ok(v) => r is Ok && r->Ok_0@ == v && r->Ok_0.wf(),
            Err(e) => r == Err::<BinaryNode, BinaryNodeError>(e),
        },
{
    decode_synthetic(input)
}

/// Encodes a [`BinaryNode`] into synthetic binary format.
pub fn encode(node: &BinaryNode) -> (r: Result<Vec<u8>, BinaryNodeError>)
    ensures
        match encode_node_spec(node) {
            Ok(b) => r is Ok && r->Ok_0@ == b,
            Err(e) => r == Err::<Vec<u8>, BinaryNodeError>(e),
        },
{
    encode_synthetic(node)
}

} // verus!

verus! {

// ---------------------------------------------------------------------------
// Synthetic format: decoding inverts encoding
// ---------------------------------------------------------------------------

/// Every tag, attribute key and attribute value in the tree is non-empty.
pub open spec fn symbols_nonempty(n: &BinaryNode) -> bool
    decreases n,
{
    &&& n.tag@.len() > 0
    &&& forall|i: int| 0 <= i < n.attrs@.len() ==> (#[trigger] n.attrs@[i]).0@.len() > 0 && n.attrs@[i].1@.len() > 0
    &&& match &n.content {
        NodeContent::Nodes(v) => forall|i: int| 0 <= i < v@.len() ==> symbols_nonempty(&#[trigger] v@[i]),
        _ => true,
    }
}

/// `b` occurs in `s` at position `p`.
pub open spec fn occurs_at(s: Seq<u8>, p: int, b: Seq<u8>) -> bool {
    0 <= p && p + b.len() <= s.len() && s.subrange(p, p + b.len()) == b
}

pub(crate) proof fn lemma_occurs_split(s: Seq<u8>, p: int, a: Seq<u8>, b: Seq<u8>)
    requires
        occurs_at(s, p, a + b),
    ensures
        occurs_at(s, p, a),
        occurs_at(s, p + a.len(), b),
{
    let w = s.subrange(p, p + (a + b).len());
    assert(w == a + b);
    assert(s.subrange(p, p + a.len()) =~= w.subrange(0, a.len() as int));
    assert(w.subrange(0, a.len() as int) =~= a);
    assert(s.subrange(p + a.len(), p + a.len() + b.len()) =~= w.subrange(a.len() as int, w.len() as int));
    assert(w.subrange(a.len() as int, w.len() as int) =~= b);
}

proof fn lemma_u16_be(s: Seq<u8>, p: int, v: int)
    requires
        0 <= v <= 65535,
        occurs_at(s, p, u16_be(v)),
    ensures
        be16(s, p) == v,
{
    assert(s[p] == u16_be(v)[0]);
    assert(s[p + 1] == u16_be(v)[1]);
    assert((v / 256) as u8 == v / 256);
    assert((v % 256) as u8 == v % 256);
}

proof fn lemma_u32_be(s: Seq<u8>, p: int, v: int)
    requires
        0 <= v <= 4294967295,
        occurs_at(s, p, u32_be(v)),
    ensures
        be32(s, p) == v,
{
    assert(s[p] == u32_be(v)[0]);
    assert(s[p + 1] == u32_be(v)[1]);
    assert(s[p + 2] == u32_be(v)[2]);
    assert(s[p + 3] == u32_be(v)[3]);
    let x = v as u32;
    assert((x / 16777216) as u8 as int * 16777216 + (x / 65536 % 256) as u8 as int * 65536 + (x / 256 % 256) as u8 as int * 256 + (x % 256) as u8 as int == x) by (nonlinear_arith);
}

proof fn lemma_symbol_roundtrip(sym: Seq<char>, s: Seq<u8>, p: int)
    requires
        sym.len() > 0,
        encode_symbol(sym) is Ok,
        occurs_at(s, p, encode_symbol(sym)->Ok_0),
    ensures
        parse_symbol(s, p) == Ok::<(Seq<char>, int), BinaryNodeError>((sym, p + encode_symbol(sym)->Ok_0.len())),
{
    broadcast use vstd::utf8::group_utf8_lib;

    reveal(encode_symbol);
    let b = encode_symbol(sym)->Ok_0;
    match token_index_from(sym, 0) {
        Some(i) => {
            lemma_token_index_from(sym, 0);
            assert(s[p] == b[0]);
            assert(s[p + 1] == b[1]);
        },
        None => {
            let bytes = encode_utf8(sym);
            let len = bytes.len() as int;
            assert(s[p] == b[0]);
            assert(b == seq![2u8] + (u16_be(len) + bytes));
            lemma_occurs_split(s, p, seq![2u8], u16_be(len) + bytes);
            lemma_occurs_split(s, p + 1, u16_be(len), bytes);
            lemma_u16_be(s, p + 1, len);
            assert(s.subrange(p + 3, p + 3 + len) == bytes);
        },
    }
}

proof fn lemma_token_index_from(sym: Seq<char>, i: int)
    requires
        token_index_from(sym, i) is Some,
    ensures
        synthetic_token(token_index_from(sym, i)->Some_0) == sym,
    decreases 256 - i,
{
    if 0 <= i < 256 && synthetic_token(i as u8) != sym {
        lemma_token_index_from(sym, i + 1);
    }
}

/// Left-to-right insertion of the pairs of `l` into `m`.
pub open spec fn insert_all(m: Map<Seq<char>, Seq<char>>, l: Seq<(String, String)>) -> Map<Seq<char>, Seq<char>>
    decreases l.len(),
{
    if l.len() == 0 {
        m
    } else {
        insert_all(m.insert(l[0].0@, l[0].1@), l.drop_first())
    }
}

proof fn lemma_insert_all_last(m: Map<Seq<char>, Seq<char>>, l: Seq<(String, String)>)
    requires
        l.len() > 0,
    ensures
        insert_all(m, l) == insert_all(m, l.drop_last()).insert(l.last().0@, l.last().1@),
    decreases l.len(),
{
    let m1 = m.insert(l[0].0@, l[0].1@);
    if l.len() == 1 {
        assert(l.drop_first() =~= Seq::<(String, String)>::empty());
        assert(l.drop_last() =~= Seq::<(String, String)>::empty());
        assert(l.last() == l[0]);
        assert(insert_all(m1, l.drop_first()) == m1);
        assert(insert_all(m, l.drop_last()) == m);
    } else {
        assert(l.drop_first().drop_last() =~= l.drop_last().drop_first());
        assert(l.drop_first().last() == l.last());
        assert(l.drop_last()[0] == l[0]);
        lemma_insert_all_last(m1, l.drop_first());
    }
}

pub(crate) proof fn lemma_insert_all_is_attrs_map(l: Seq<(String, String)>)
    ensures
        insert_all(Map::empty(), l) == attrs_map(l),
    decreases l.len(),
{
    if l.len() > 0 {
        lemma_insert_all_last(Map::empty(), l);
        lemma_insert_all_is_attrs_map(l.drop_last());
    }
}

proof fn lemma_attrs_roundtrip(l: Seq<(String, String)>, s: Seq<u8>, p: int, m: Map<Seq<char>, Seq<char>>)
    requires
        forall|i: int| 0 <= i < l.len() ==> (#[trigger] l[i]).0@.len() > 0 && l[i].1@.len() > 0,
        encode_attr_list(l) is Ok,
        occurs_at(s, p, encode_attr_list(l)->Ok_0),
    ensures
        parse_attrs(s, p, l.len(), m) == Ok::<(Map<Seq<char>, Seq<char>>, int), BinaryNodeError>((insert_all(m, l), p + encode_attr_list(l)->Ok_0.len())),
    decreases l.len(),
{
    if l.len() > 0 {
        let k = encode_symbol(l[0].0@)->Ok_0;
        let v = encode_symbol(l[0].1@)->Ok_0;
        let rest = encode_attr_list(l.drop_first())->Ok_0;
        assert(encode_attr_list(l)->Ok_0 == k + (v + rest));
        lemma_occurs_split(s, p, k, v + rest);
        lemma_occurs_split(s, p + k.len(), v, rest);
        lemma_symbol_roundtrip(l[0].0@, s, p);
        lemma_symbol_roundtrip(l[0].1@, s, p + k.len());
        assert forall|i: int| 0 <= i < l.drop_first().len() implies (#[trigger] l.drop_first()[i]).0@.len() > 0 && l.drop_first()[i].1@.len() > 0 by {
            assert(l.drop_first()[i] == l[i + 1]);
        }
        lemma_attrs_roundtrip(l.drop_first(), s, p + k.len() + v.len(), m.insert(l[0].0@, l[0].1@));
        assert((l.len() - 1) as nat == l.drop_first().len());
    }
}

/// Some pair of `l` has key `k`.
pub open spec fn has_key(l: Seq<(String, String)>, k: Seq<char>) -> bool {
    exists|i: int| 0 <= i < l.len() && (#[trigger] l[i]).0@ == k
}

proof fn lemma_insert_sorted_index(t: Seq<(String, String)>, x: (String, String)) -> (j: int)
    ensures
        0 <= j <= t.len(),
        insert_sorted(t, x) == t.insert(j, x),
    decreases t.len(),
{
    if t.len() == 0 {
        assert(t.insert(0, x) =~= seq![x]);
        0
    } else if crate::text::lex_lt(key_bytes(x), key_bytes(t[0])) {
        assert(t.insert(0, x) =~= seq![x] + t);
        0
    } else {
        let j = lemma_insert_sorted_index(t.drop_first(), x);
        assert(t.insert(j + 1, x) =~= seq![t[0]] + t.drop_first().insert(j, x));
        j + 1
    }
}

proof fn lemma_attrs_map_insert_fresh(t: Seq<(String, String)>, j: int, x: (String, String))
    requires
        0 <= j <= t.len(),
        !has_key(t, x.0@),
    ensures
        attrs_map(t.insert(j, x)) == attrs_map(t).insert(x.0@, x.1@),
    decreases t.len(),
{
    let u = t.insert(j, x);
    if j == t.len() {
        assert(u.drop_last() =~= t);
    } else {
        assert(u.drop_last() =~= t.drop_last().insert(j, x));
        assert(u.last() == t.last());
        assert(!has_key(t.drop_last(), x.0@)) by {
            if has_key(t.drop_last(), x.0@) {
                let i = choose|i: int| 0 <= i < t.drop_last().len() && (#[trigger] t.drop_last()[i]).0@ == x.0@;
                assert(t[i] == t.drop_last()[i]);
            }
        }
        lemma_attrs_map_insert_fresh(t.drop_last(), j, x);
        assert(t.last().0@ != x.0@) by {
            assert(t[t.len() - 1] == t.last());
        }
        assert(attrs_map(u) =~= attrs_map(t).insert(x.0@, x.1@));
    }
}

pub(crate) proof fn lemma_sort_attrs(l: Seq<(String, String)>)
    requires
        attrs_distinct(l),
    ensures
        attrs_distinct(sort_attrs(l)),
        attrs_map(sort_attrs(l)) == attrs_map(l),
        sort_attrs(l).len() == l.len(),
        forall|k: Seq<char>| has_key(sort_attrs(l), k) <==> has_key(l, k),
        forall|i: int| 0 <= i < sort_attrs(l).len() ==> exists|k: int| 0 <= k < l.len() && #[trigger] sort_attrs(l)[i] == l[k],
    decreases l.len(),
{
    if l.len() > 0 {
        let d = l.drop_last();
        let x = l.last();
        assert(attrs_distinct(d)) by {
            assert forall|a: int, b: int| 0 <= a < d.len() && 0 <= b < d.len() && a != b implies d[a].0@ != d[b].0@ by {
                assert(d[a] == l[a] && d[b] == l[b]);
            }
        }
        lemma_sort_attrs(d);
        let t = sort_attrs(d);
        assert(!has_key(d, x.0@)) by {
            if has_key(d, x.0@) {
                let i = choose|i: int| 0 <= i < d.len() && (#[trigger] d[i]).0@ == x.0@;
                assert(l[i] == d[i]);
                assert(l[l.len() - 1] == x);
            }
        }
        assert(!has_key(t, x.0@));
        let j = lemma_insert_sorted_index(t, x);
        let u = t.insert(j, x);
        assert(sort_attrs(l) == u);
        lemma_attrs_map_insert_fresh(t, j, x);
        assert forall|a: int, b: int| 0 <= a < u.len() && 0 <= b < u.len() && a != b implies u[a].0@ != u[b].0@ by {
            if a == j {
                assert(u[b] == (if b < j { t[b] } else { t[b - 1] }));
            } else if b == j {
                assert(u[a] == (if a < j { t[a] } else { t[a - 1] }));
            } else {
                let ta = if a < j { a } else { a - 1 };
                let tb = if b < j { b } else { b - 1 };
                assert(u[a] == t[ta] && u[b] == t[tb]);
            }
        }
        assert forall|k: Seq<char>| has_key(u, k) <==> has_key(l, k) by {
            if has_key(u, k) {
                let i = choose|i: int| 0 <= i < u.len() && (#[trigger] u[i]).0@ == k;
                if i == j {
                    assert(l[l.len() - 1] == x);
                } else {
                    let ti = if i < j { i } else { i - 1 };
                    assert(u[i] == t[ti]);
                    assert(has_key(t, k));
                    assert(has_key(d, k));
                    let di = choose|di: int| 0 <= di < d.len() && (#[trigger] d[di]).0@ == k;
                    assert(l[di] == d[di]);
                }
            }
            if has_key(l, k) {
                let i = choose|i: int| 0 <= i < l.len() && (#[trigger] l[i]).0@ == k;
                if i == l.len() - 1 {
                    assert(u[j] == x);
                } else {
                    assert(d[i] == l[i]);
                    assert(has_key(d, k));
                    assert(has_key(t, k));
                    let ti = choose|ti: int| 0 <= ti < t.len() && (#[trigger] t[ti]).0@ == k;
                    let ui = if ti < j { ti } else { ti + 1 };
                    assert(u[ui] == t[ti]);
                }
            }
        }
        assert forall|i: int| 0 <= i < u.len() implies exists|k: int| 0 <= k < l.len() && #[trigger] u[i] == l[k] by {
            if i == j {
                assert(u[i] == l[l.len() - 1]);
            } else {
                let ti = if i < j { i } else { i - 1 };
                assert(u[i] == t[ti]);
                let k = choose|k: int| 0 <= k < d.len() && t[ti] == #[trigger] d[k];
                assert(l[k] == d[k]);
            }
        }
    }
}

#[verifier::rlimit(60)]
proof fn lemma_node_roundtrip(n: &BinaryNode, s: Seq<u8>, p: int)
    requires
        node_wf(n),
        symbols_nonempty(n),
        encode_node_spec(n) is Ok,
        occurs_at(s, p, encode_node_spec(n)->Ok_0),
    ensures
        parse_node(s, p) == Ok::<(NodeView, int), BinaryNodeError>((node_view(n), p + encode_node_spec(n)->Ok_0.len())),
    decreases n, 1int, 0int,
{
    lemma_node_view_unfold(n);
    let t = encode_symbol(n.tag@)->Ok_0;
    let sorted = sort_attrs(n.attrs@);
    let a = encode_attr_list(sorted)->Ok_0;
    let cnt = u16_be(n.attrs@.len() as int);
    let head = t + cnt + a;
    let b = encode_node_spec(n)->Ok_0;
    let tail = b.subrange(head.len() as int, b.len() as int);
    assert(b == head + tail) by {
        match &n.content {
            NodeContent::Empty => {},
            NodeContent::Bytes(x) => {},
            NodeContent::Nodes(v) => {},
        }
        assert(b.subrange(0, head.len() as int) =~= head);
        assert(b =~= b.subrange(0, head.len() as int) + tail);
    }
    assert(head + tail == t + (cnt + (a + tail)));
    lemma_occurs_split(s, p, t, cnt + (a + tail));
    lemma_occurs_split(s, p + t.len(), cnt, a + tail);
    lemma_occurs_split(s, p + t.len() + 2, a, tail);
    lemma_symbol_roundtrip(n.tag@, s, p);
    lemma_u16_be(s, p + t.len(), n.attrs@.len() as int);
    lemma_sort_attrs(n.attrs@);
    assert forall|i: int| 0 <= i < sorted.len() implies (#[trigger] sorted[i]).0@.len() > 0 && sorted[i].1@.len() > 0 by {
        let k = choose|k: int| 0 <= k < n.attrs@.len() && sorted[i] == #[trigger] n.attrs@[k];
    }
    lemma_attrs_roundtrip(sorted, s, p + t.len() + 2, Map::empty());
    lemma_insert_all_is_attrs_map(sorted);
    let q = p + head.len();
    match &n.content {
        NodeContent::Empty => {
            assert(tail =~= seq![0u8]);
            assert(s[q] == tail[0]);
        },
        NodeContent::Bytes(x) => {
            assert(tail =~= seq![1u8] + (u32_be(x@.len() as int) + x@));
            lemma_occurs_split(s, q, seq![1u8], u32_be(x@.len() as int) + x@);
            lemma_occurs_split(s, q + 1, u32_be(x@.len() as int), x@);
            lemma_u32_be(s, q + 1, x@.len() as int);
            assert(s[q] == tail[0]);
        },
        NodeContent::Nodes(v) => {
            let c = encode_children_spec(n, 0)->Ok_0;
            assert(tail =~= seq![2u8] + (u16_be(v@.len() as int) + c));
            lemma_occurs_split(s, q, seq![2u8], u16_be(v@.len() as int) + c);
            lemma_occurs_split(s, q + 1, u16_be(v@.len() as int), c);
            lemma_u16_be(s, q + 1, v@.len() as int);
            assert(s[q] == tail[0]);
            lemma_children_roundtrip(n, 0, s, q + 3, Seq::empty());
            assert(Seq::<NodeView>::empty() + Seq::new((v@.len() - 0) as nat, |k: int| node_view(&v@[0 + k])) =~= Seq::new(v@.len(), |k: int| node_view(&v@[k])));
            assert((v@.len() - 0) as nat == be16(s, q + 1) as nat);
        },
    }
}

proof fn lemma_children_roundtrip(parent: &BinaryNode, i: int, s: Seq<u8>, p: int, acc: Seq<NodeView>)
    requires
        parent.content is Nodes,
        0 <= i <= parent.content->Nodes_0@.len(),
        forall|k: int| 0 <= k < parent.content->Nodes_0@.len() ==> node_wf(&#[trigger] parent.content->Nodes_0@[k]),
        forall|k: int| 0 <= k < parent.content->Nodes_0@.len() ==> symbols_nonempty(&#[trigger] parent.content->Nodes_0@[k]),
        encode_children_spec(parent, i) is Ok,
        occurs_at(s, p, encode_children_spec(parent, i)->Ok_0),
    ensures
        parse_nodes(s, p, (parent.content->Nodes_0@.len() - i) as nat, acc) == Ok::<(Seq<NodeView>, int), BinaryNodeError>((
            acc + Seq::new((parent.content->Nodes_0@.len() - i) as nat, |k: int| node_view(&parent.content->Nodes_0@[i + k])),
            p + encode_children_spec(parent, i)->Ok_0.len(),
        )),
    decreases parent, 0int, parent.content->Nodes_0@.len() - i,
{
    let v = parent.content->Nodes_0;
    if i == v@.len() {
        assert(acc + Seq::new(0, |k: int| node_view(&v@[i + k])) =~= acc);
    } else {
        let child = &v@[i];
        let b = encode_node_spec(child)->Ok_0;
        let rest = encode_children_spec(parent, i + 1)->Ok_0;
        lemma_occurs_split(s, p, b, rest);
        lemma_node_roundtrip(child, s, p);
        lemma_node_advances(child);
        lemma_children_roundtrip(parent, i + 1, s, p + b.len(), acc.push(node_view(child)));
        assert(acc.push(node_view(child)) + Seq::new((v@.len() - (i + 1)) as nat, |k: int| node_view(&v@[i + 1 + k]))
            =~= acc + Seq::new((v@.len() - i) as nat, |k: int| node_view(&v@[i + k])));
        assert((v@.len() - i - 1) as nat == ((v@.len() - i) as nat - 1) as nat);
    }
}

proof fn lemma_node_advances(n: &BinaryNode)
    requires
        encode_node_spec(n) is Ok,
    ensures
        encode_node_spec(n)->Ok_0.len() > 0,
{
    reveal(encode_symbol);
    let t = encode_symbol(n.tag@)->Ok_0;
    assert(t.len() > 0);
    let b = encode_node_spec(n)->Ok_0;
    match &n.content {
        NodeContent::Empty => {},
        NodeContent::Bytes(x) => {},
        NodeContent::Nodes(v) => {},
    }
}

/// Decoding the encoding of a well-formed node whose tags, keys and values
/// are all non-empty gives back the same node (same tag, same attribute map,
/// same content, recursively).
pub proof fn law_synthetic_roundtrip(n: &BinaryNode)
    requires
        n.wf(),
        symbols_nonempty(n),
        encode_node_spec(n) is Ok,
    ensures
        spec_decode_synthetic(encode_node_spec(n)->Ok_0) == Ok::<NodeView, BinaryNodeError>(n@),
{
    let b = encode_node_spec(n)->Ok_0;
    assert(b.subrange(0, b.len() as int) =~= b);
    lemma_node_roundtrip(n, b, 0);
}

/// Bytes after an encoded node are refused: decoding the encoding followed by
/// at least one more byte reports trailing bytes.
pub proof fn law_synthetic_trailing_bytes(n: &BinaryNode, extra: Seq<u8>)
    requires
        n.wf(),
        symbols_nonempty(n),
        encode_node_spec(n) is Ok,
        extra.len() > 0,
    ensures
        spec_decode_synthetic(encode_node_spec(n)->Ok_0 + extra) == Err::<NodeView, BinaryNodeError>(
            BinaryNodeError::TrailingBytes,
        ),
{
    let b = encode_node_spec(n)->Ok_0;
    let s = b + extra;
    assert(s.subrange(0, b.len() as int) =~= b);
    lemma_node_roundtrip(n, s, 0);
}

} // verus!
