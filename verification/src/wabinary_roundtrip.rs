use vstd::prelude::*;
use vstd::utf8::*;

use crate::binary_node::{
    attrs_map, insert_all, lemma_insert_all_is_attrs_map, lemma_node_view_unfold, lemma_occurs_split, lemma_sort_attrs,
    node_view, node_wf, occurs_at, sort_attrs, BinaryNode, ContentView, NodeContent, NodeView,
};
use crate::error::BinaryNodeError;
use crate::text::ascii_chars;
use crate::wabinary::{
    decompress_spec, encode_real_node_spec, encode_real_spec, real_children_spec, real_content, real_list, real_node,
    real_nodes, spec_decode_real_body, TokenTables,
    is_list_tag_spec, list_start_spec, node_string, rd_list_size, real_attr_list, real_attrs, text_bytes,
    TAG_LIST_16, TAG_LIST_8,
    double_lookup, jid_decode_spec, last_index_of, token_lookup, write_jid_spec, write_string_spec, TAG_JID_PAIR,
    TAG_LIST_EMPTY, TAG_DICTIONARY_0,
    be_bytes, byte_length_spec, is_hex_spec, is_nibble_spec, pack_char_spec, packed_pairs, pow256, rd_int, rd_int20,
    rd_packed, rd_packed_string, real_string, string_at, unpack_spec, write_packed_spec, write_raw_spec, TablesView,
    TAG_HEX_8, TAG_NIBBLE_8,
};

verus! {

/// Reads back a length written by [`byte_length_spec`]: the tag byte, then
/// the length read as the decoder reads it for that tag.
pub open spec fn read_length(s: Seq<u8>, p: int) -> Result<(nat, int), BinaryNodeError> {
    if s[p] == 252u8 {
        rd_int(s, p + 1, 1)
    } else if s[p] == 253u8 {
        rd_int20(s, p + 1)
    } else {
        rd_int(s, p + 1, 4)
    }
}

proof fn lemma_byte_length(n: nat, s: Seq<u8>, p: int)
    requires
        byte_length_spec(n) is Ok,
        occurs_at(s, p, byte_length_spec(n)->Ok_0),
    ensures
        s[p] == 252u8 || s[p] == 253u8 || s[p] == 254u8,
        read_length(s, p) == Ok::<(nat, int), BinaryNodeError>((n, p + byte_length_spec(n)->Ok_0.len())),
{
    let h = byte_length_spec(n)->Ok_0;
    assert(s[p] == h[0]);
    reveal_with_fuel(rd_int, 5);
    if n >= 1048576 {
        reveal_with_fuel(pow256, 4);
        let b = be_bytes(n, 4);
        assert(h == seq![254u8] + b);
        assert(b.len() == 4);
        assert(h[1] == b[0] && h[2] == b[1] && h[3] == b[2] && h[4] == b[3]);
        assert(s[p + 1] == h[1] && s[p + 2] == h[2] && s[p + 3] == h[3] && s[p + 4] == h[4]);
        assert(pow256(0) == 1 && n / 1 == n);
        assert(b[0] == ((n / 16777216) % 256) as u8);
        assert(b[1] == ((n / 65536) % 256) as u8);
        assert(b[2] == ((n / 256) % 256) as u8);
        assert(b[3] == (n % 256) as u8);
        let x = n as u32;
        assert(((((x / 16777216) % 256) as u8 as nat * 256 + ((x / 65536) % 256) as u8 as nat) * 256 + ((x / 256)
            % 256) as u8 as nat) * 256 + (x % 256) as u8 as nat == x) by (nonlinear_arith);
    } else if n >= 256 {
        assert(s[p + 1] == h[1] && s[p + 2] == h[2] && s[p + 3] == h[3]);
        assert(((n / 65536) as u8 % 16) as nat * 65536 + ((n / 256) % 256) as u8 as nat * 256 + (n % 256) as u8 as nat
            == n) by (nonlinear_arith)
            requires
                256 <= n < 1048576,
        ;
    } else {
        assert(s[p + 1] == h[1]);
    }
}

/// Decoding the raw form of a string gives the string back.
pub(crate) proof fn lemma_raw_roundtrip(t: TablesView, v: Seq<char>, s: Seq<u8>, p: int)
    requires
        t.single.len() <= 236,
        write_raw_spec(v) is Ok,
        occurs_at(s, p, write_raw_spec(v)->Ok_0),
    ensures
        string_at(t, s, p) == Ok::<(Seq<char>, int), BinaryNodeError>((v, p + write_raw_spec(v)->Ok_0.len())),
{
    let b = encode_utf8(v);
    let h = byte_length_spec(b.len())->Ok_0;
    lemma_occurs_split(s, p, h, b);
    lemma_byte_length(b.len(), s, p);
    encode_utf8_valid_utf8(v);
    encode_utf8_decode_utf8(v);
    assert(s.subrange(p + h.len(), p + h.len() + b.len()) == b);
}

/// A byte of the alphabet of packing tag `tag` (digits, `-` and `.` for
/// nibbles; digits and `A`-`F` for hexadecimal).
pub open spec fn packable(c: u8, tag: u8) -> bool {
    if tag == TAG_NIBBLE_8 {
        (48 <= c <= 57) || c == 45 || c == 46
    } else {
        (48 <= c <= 57) || (65 <= c <= 70)
    }
}

/// Bytes the decoder unpacks from the packed pairs of `v` from index `i` on:
/// the characters two by two, the missing second digit read as padding.
pub open spec fn unpacked_tail(v: Seq<char>, tag: u8, i: int) -> Seq<u8>
    decreases v.len() + 1 - i,
{
    if i < 0 || i >= v.len() {
        Seq::empty()
    } else {
        seq![v[i] as u8, if i + 1 < v.len() { v[i + 1] as u8 } else { unpack_spec(tag, 15)->Ok_0 }] + unpacked_tail(
            v,
            tag,
            i + 2,
        )
    }
}

proof fn lemma_pack_unpack(c: char, tag: u8)
    requires
        tag == TAG_NIBBLE_8 || tag == TAG_HEX_8,
        (c as u32) < 128,
        packable(c as u8, tag),
    ensures
        pack_char_spec(c, tag) is Ok,
        pack_char_spec(c, tag)->Ok_0 < 16,
        unpack_spec(tag, pack_char_spec(c, tag)->Ok_0) == Ok::<u8, BinaryNodeError>(c as u8),
{
}

proof fn lemma_pair_byte(left: u8, right: u8)
    requires
        left < 16,
        right < 16,
    ensures
        ((left * 16 + right) as u8) / 16 == left,
        ((left * 16 + right) as u8) % 16 == right,
{
    assert(((left * 16 + right) as u8) / 16 == left && ((left * 16 + right) as u8) % 16 == right) by (bit_vector)
        requires
            left < 16,
            right < 16,
    ;
}

proof fn lemma_packed_read(v: Seq<char>, tag: u8, i: int, s: Seq<u8>, q: int, acc: Seq<u8>)
    requires
        tag == TAG_NIBBLE_8 || tag == TAG_HEX_8,
        0 <= i,
        forall|k: int| 0 <= k < v.len() ==> ((#[trigger] v[k]) as u32) < 128 && packable(v[k] as u8, tag),
        packed_pairs(v, tag, i) is Ok,
        occurs_at(s, q, packed_pairs(v, tag, i)->Ok_0),
    ensures
        rd_packed(s, q, tag, (if i < v.len() { (v.len() - i + 1) / 2 } else { 0 }) as nat, acc) == Ok::<
            (Seq<u8>, int),
            BinaryNodeError,
        >((acc + unpacked_tail(v, tag, i), q + packed_pairs(v, tag, i)->Ok_0.len())),
    decreases v.len() + 1 - i,
{
    if i >= v.len() {
        assert(acc + Seq::<u8>::empty() =~= acc);
    } else {
        lemma_pack_unpack(v[i], tag);
        let left = pack_char_spec(v[i], tag)->Ok_0;
        let right = if i + 1 < v.len() {
            lemma_pack_unpack(v[i + 1], tag);
            pack_char_spec(v[i + 1], tag)->Ok_0
        } else {
            15u8
        };
        let rest = packed_pairs(v, tag, i + 2)->Ok_0;
        let byte = (left * 16 + right) as u8;
        assert(packed_pairs(v, tag, i)->Ok_0 == seq![byte] + rest);
        lemma_occurs_split(s, q, seq![byte], rest);
        assert(s.subrange(q, q + 1)[0] == s[q]);
        assert(s[q] == byte);
        lemma_pair_byte(left, right);
        let hi = v[i] as u8;
        let lo = if i + 1 < v.len() { v[i + 1] as u8 } else { unpack_spec(tag, 15)->Ok_0 };
        lemma_packed_read(v, tag, i + 2, s, q + 1, acc.push(hi).push(lo));
        let n = (v.len() - i + 1) / 2;
        assert((if i + 2 < v.len() { (v.len() - (i + 2) + 1) / 2 } else { 0 }) == n - 1);
        assert(acc.push(hi).push(lo) + unpacked_tail(v, tag, i + 2) =~= acc + unpacked_tail(v, tag, i));
    }
}

proof fn lemma_unpacked_tail_shape(v: Seq<char>, tag: u8, i: int)
    requires
        0 <= i,
    ensures
        unpacked_tail(v, tag, i).len() == (if i < v.len() { 2 * ((v.len() - i + 1) / 2) } else { 0 }),
        forall|k: int| 0 <= k < v.len() - i ==> #[trigger] unpacked_tail(v, tag, i)[k] == v[i + k] as u8,
    decreases v.len() + 1 - i,
{
    if i < v.len() {
        lemma_unpacked_tail_shape(v, tag, i + 2);
        let pair = seq![v[i] as u8, if i + 1 < v.len() { v[i + 1] as u8 } else { unpack_spec(tag, 15)->Ok_0 }];
        let rest = unpacked_tail(v, tag, i + 2);
        assert forall|k: int| 0 <= k < v.len() - i implies #[trigger] unpacked_tail(v, tag, i)[k] == v[i + k] as u8 by {
            assert(unpacked_tail(v, tag, i) == pair + rest);
            if k >= 2 {
                assert(rest[k - 2] == v[i + 2 + (k - 2)] as u8);
            }
        }
    }
}

/// Decoding the packed form of a nibble or hexadecimal string gives it back.
pub(crate) proof fn lemma_packed_roundtrip(t: TablesView, v: Seq<char>, tag: u8, s: Seq<u8>, p: int)
    requires
        t.single.len() <= 236,
        tag == TAG_NIBBLE_8 ==> is_nibble_spec(encode_utf8(v)),
        tag == TAG_HEX_8 ==> is_hex_spec(encode_utf8(v)),
        tag == TAG_NIBBLE_8 || tag == TAG_HEX_8,
        write_packed_spec(v, tag) is Ok,
        occurs_at(s, p, write_packed_spec(v, tag)->Ok_0),
    ensures
        string_at(t, s, p) == Ok::<(Seq<char>, int), BinaryNodeError>((v, p + write_packed_spec(v, tag)->Ok_0.len())),
{
    let b = encode_utf8(v);
    let c = ascii_chars(b);
    assert(is_ascii_chars(c));
    is_ascii_chars_encode_utf8(c);
    assert(encode_utf8(c) =~= b);
    encode_utf8_decode_utf8(v);
    encode_utf8_decode_utf8(c);
    assert(v == c);
    assert forall|k: int| 0 <= k < v.len() implies ((#[trigger] v[k]) as u32) < 128 && packable(v[k] as u8, tag) by {
        assert(v[k] == b[k] as char);
    }
    let n = b.len();
    let pairs = packed_pairs(v, tag, 0)->Ok_0;
    let hdr = ((n + 1) / 2 + if n % 2 != 0 { 128int } else { 0int }) as u8;
    assert(write_packed_spec(v, tag)->Ok_0 == seq![tag, hdr] + pairs);
    lemma_occurs_split(s, p, seq![tag, hdr], pairs);
    assert(s[p] == tag && s[p + 1] == hdr);
    assert(hdr % 128 == (n + 1) / 2);
    lemma_packed_read(v, tag, 0, s, p + 2, Seq::empty());
    lemma_unpacked_tail_shape(v, tag, 0);
    let u = unpacked_tail(v, tag, 0);
    assert(Seq::<u8>::empty() + u =~= u);
    let kept = if hdr >= 128 && u.len() > 0 { u.drop_last() } else { u };
    assert(kept.len() == v.len());
    assert(ascii_chars(kept) =~= v) by {
        assert forall|k: int| 0 <= k < v.len() implies ascii_chars(kept)[k] == v[k] by {
            assert(kept[k] == u[k]);
            assert(u[k] == v[k] as u8);
        }
    }
    assert(real_string(t, s, p + 1, tag) == rd_packed_string(s, p + 1, tag));
}

/// Token dictionaries the decoder reads as the encoder writes them: within
/// the format's limits, with index 0 of the single-byte dictionary unused.
pub open spec fn tables_roundtrip(t: TablesView) -> bool {
    &&& t.single.len() <= 236
    &&& t.double.len() <= 4
    &&& forall|d: int| 0 <= d < t.double.len() ==> (#[trigger] t.double[d]).len() <= 256
    &&& t.single.len() > 0 ==> t.single[0].len() == 0
}

/// Text that the encoder writes in a form the decoder reads back unchanged:
/// empty text, a token, packed digits, text that is not a JID, or a JID
/// `user@server` without agent or device whose parts are such text.
pub open spec fn text_roundtrips(t: TablesView, v: Seq<char>) -> bool
    decreases v.len(),
{
    ||| v.len() == 0
    ||| token_lookup(t, v) is Some
    ||| is_nibble_spec(encode_utf8(v))
    ||| is_hex_spec(encode_utf8(v))
    ||| jid_decode_spec(v) is None
    ||| match jid_decode_spec(v) {
        Some(j) => {
            &&& j.device is None
            &&& v == j.user + seq!['@'] + j.server
            &&& j.server.len() > 0
            &&& j.user.len() < v.len()
            &&& j.server.len() < v.len()
            &&& text_roundtrips(t, j.user)
            &&& text_roundtrips(t, j.server)
        },
        None => false,
    }
}

proof fn lemma_last_index_of(row: Seq<Seq<char>>, v: Seq<char>, n: int)
    ensures
        last_index_of(row, v, n) matches Some(i) ==> 0 <= i < n && row[i] == v,
    decreases n,
{
    if n > 0 {
        lemma_last_index_of(row, v, n - 1);
    }
}

proof fn lemma_double_lookup(double: Seq<Seq<Seq<char>>>, v: Seq<char>, d: int)
    requires
        d <= double.len(),
        double.len() <= 4,
    ensures
        double_lookup(double, v, d) matches Some((x, i)) ==> 0 <= x < d && (i as int) < double[x as int].len()
            && double[x as int][i as int] == v,
    decreases d,
{
    if d > 0 {
        lemma_double_lookup(double, v, d - 1);
        let row = double[d - 1];
        let n = if row.len() < 256 { row.len() as int } else { 256 };
        lemma_last_index_of(row, v, n);
        if let Some(i) = last_index_of(row, v, n) {
            assert(((d - 1) as u8) as int == d - 1);
            assert((i as u8) as int == i);
        }
    }
}

proof fn lemma_one_byte(s: Seq<u8>, p: int, b: Seq<u8>)
    requires
        occurs_at(s, p, b),
        b.len() > 0,
    ensures
        s[p] == b[0],
{
    assert(s.subrange(p, p + b.len())[0] == s[p]);
}

proof fn lemma_token_roundtrip(t: TablesView, v: Seq<char>, s: Seq<u8>, p: int)
    requires
        tables_roundtrip(t),
        v.len() > 0,
        token_lookup(t, v) is Some,
        occurs_at(s, p, write_string_spec(t, v)->Ok_0),
    ensures
        write_string_spec(t, v) is Ok,
        string_at(t, s, p) == Ok::<(Seq<char>, int), BinaryNodeError>((v, p + write_string_spec(t, v)->Ok_0.len())),
{
    let b = write_string_spec(t, v)->Ok_0;
    lemma_double_lookup(t.double, v, t.double.len() as int);
    match token_lookup(t, v) {
        Some((Some(d), i)) => {
            let tag = (TAG_DICTIONARY_0 + d) as u8;
            assert(b =~= seq![tag] + seq![i]);
            lemma_occurs_split(s, p, seq![tag], seq![i]);
            lemma_one_byte(s, p, seq![tag]);
            lemma_one_byte(s, p + 1, seq![i]);
        },
        Some((None, i)) => {
            let n = if t.single.len() < 256 { t.single.len() as int } else { 256 };
            lemma_last_index_of(t.single, v, n);
            assert(b == seq![i]);
            lemma_one_byte(s, p, b);
            assert(i >= 1);
        },
        None => {},
    }
}

#[verifier::spinoff_prover]
#[verifier::rlimit(40)]
proof fn lemma_jid_pair_roundtrip(t: TablesView, v: Seq<char>, s: Seq<u8>, p: int)
    requires
        tables_roundtrip(t),
        v.len() > 0,
        token_lookup(t, v) is None,
        !is_nibble_spec(encode_utf8(v)),
        !is_hex_spec(encode_utf8(v)),
        jid_decode_spec(v) is Some,
        text_roundtrips(t, v),
        write_string_spec(t, v) is Ok,
        occurs_at(s, p, write_string_spec(t, v)->Ok_0),
    ensures
        string_at(t, s, p) == Ok::<(Seq<char>, int), BinaryNodeError>((v, p + write_string_spec(t, v)->Ok_0.len())),
    decreases v.len(), 0int,
{
    let b = write_string_spec(t, v)->Ok_0;
    let j = jid_decode_spec(v)->Some_0;
    let u = if j.user.len() == 0 {
        seq![TAG_LIST_EMPTY]
    } else {
        write_string_spec(t, j.user)->Ok_0
    };
    let sv = write_string_spec(t, j.server)->Ok_0;
    assert(b == write_jid_spec(t, j)->Ok_0);
    assert(b == seq![TAG_JID_PAIR] + u + sv);
    assert(seq![TAG_JID_PAIR] + u + sv == seq![TAG_JID_PAIR] + (u + sv));
    lemma_occurs_split(s, p, seq![TAG_JID_PAIR], u + sv);
    lemma_occurs_split(s, p + 1, u, sv);
    lemma_one_byte(s, p, seq![TAG_JID_PAIR]);
    if j.user.len() == 0 {
        lemma_one_byte(s, p + 1, u);
    } else {
        lemma_text_roundtrip(t, j.user, s, p + 1);
    }
    lemma_text_roundtrip(t, j.server, s, p + 1 + u.len());
}

/// Decoding the encoding of a string that round-trips gives it back.
pub(crate) proof fn lemma_text_roundtrip(t: TablesView, v: Seq<char>, s: Seq<u8>, p: int)
    requires
        tables_roundtrip(t),
        text_roundtrips(t, v),
        write_string_spec(t, v) is Ok,
        occurs_at(s, p, write_string_spec(t, v)->Ok_0),
    ensures
        string_at(t, s, p) == Ok::<(Seq<char>, int), BinaryNodeError>((v, p + write_string_spec(t, v)->Ok_0.len())),
    decreases v.len(), 1int,
{
    if v.len() == 0 {
        lemma_raw_roundtrip(t, v, s, p);
    } else if token_lookup(t, v) is Some {
        lemma_token_roundtrip(t, v, s, p);
    } else if is_nibble_spec(encode_utf8(v)) {
        lemma_packed_roundtrip(t, v, TAG_NIBBLE_8, s, p);
    } else if is_hex_spec(encode_utf8(v)) {
        lemma_packed_roundtrip(t, v, TAG_HEX_8, s, p);
    } else if jid_decode_spec(v) is Some {
        lemma_jid_pair_roundtrip(t, v, s, p);
    } else {
        lemma_raw_roundtrip(t, v, s, p);
    }
}

proof fn lemma_list_start(n: nat, s: Seq<u8>, p: int)
    requires
        list_start_spec(n) is Ok,
        occurs_at(s, p, list_start_spec(n)->Ok_0),
    ensures
        is_list_tag_spec(s[p]),
        rd_list_size(s, p + 1, s[p]) == Ok::<(nat, int), BinaryNodeError>((n, p + list_start_spec(n)->Ok_0.len())),
{
    let h = list_start_spec(n)->Ok_0;
    lemma_one_byte(s, p, h);
    reveal_with_fuel(rd_int, 3);
    if n == 0 {
    } else if n < 256 {
        assert(s[p + 1] == h[1]);
    } else {
        assert(s[p + 1] == h[1] && s[p + 2] == h[2]);
        assert(((n / 256) as u8) as nat * 256 + ((n % 256) as u8) as nat == n) by (nonlinear_arith)
            requires
                256 <= n <= 65535,
        ;
    }
}

/// Text that round-trips, written through the folded encoder.
proof fn lemma_folded_text(t: TablesView, v: Seq<char>, s: Seq<u8>, p: int)
    requires
        tables_roundtrip(t),
        text_roundtrips(t, v),
        text_bytes(t, v) is Ok,
        occurs_at(s, p, text_bytes(t, v)->Ok_0),
    ensures
        node_string(t, s, p) == Ok::<(Seq<char>, int), BinaryNodeError>((v, p + text_bytes(t, v)->Ok_0.len())),
{
    reveal(text_bytes);
    reveal(node_string);
    lemma_text_roundtrip(t, v, s, p);
}

proof fn lemma_attr_list_front(t: TablesView, l: Seq<(String, String)>)
    requires
        l.len() > 0,
        real_attr_list(t, l) is Ok,
    ensures
        text_bytes(t, l[0].0@) is Ok,
        text_bytes(t, l[0].1@) is Ok,
        real_attr_list(t, l.drop_first()) is Ok,
        real_attr_list(t, l)->Ok_0 == text_bytes(t, l[0].0@)->Ok_0 + text_bytes(t, l[0].1@)->Ok_0 + real_attr_list(
            t,
            l.drop_first(),
        )->Ok_0,
    decreases l.len(),
{
    if l.len() == 1 {
        assert(l.drop_last() =~= Seq::<(String, String)>::empty());
        assert(l.drop_first() =~= Seq::<(String, String)>::empty());
        assert(l.last() == l[0]);
        let k = text_bytes(t, l[0].0@)->Ok_0;
        let v = text_bytes(t, l[0].1@)->Ok_0;
        assert(Seq::<u8>::empty() + k + v =~= k + v + Seq::<u8>::empty());
    } else {
        let d = l.drop_last();
        lemma_attr_list_front(t, d);
        assert(d[0] == l[0]);
        assert(d.drop_first() =~= l.drop_first().drop_last());
        assert(l.drop_first().last() == l.last());
        let k0 = text_bytes(t, l[0].0@)->Ok_0;
        let v0 = text_bytes(t, l[0].1@)->Ok_0;
        let mid = real_attr_list(t, d.drop_first())->Ok_0;
        let kl = text_bytes(t, l.last().0@)->Ok_0;
        let vl = text_bytes(t, l.last().1@)->Ok_0;
        assert(k0 + v0 + mid + kl + vl =~= k0 + v0 + (mid + kl + vl));
    }
}

proof fn lemma_real_attrs_roundtrip(
    t: TablesView,
    l: Seq<(String, String)>,
    s: Seq<u8>,
    p: int,
    m: Map<Seq<char>, Seq<char>>,
)
    requires
        tables_roundtrip(t),
        forall|i: int|
            0 <= i < l.len() ==> text_roundtrips(t, (#[trigger] l[i]).0@) && text_roundtrips(t, l[i].1@),
        real_attr_list(t, l) is Ok,
        occurs_at(s, p, real_attr_list(t, l)->Ok_0),
    ensures
        real_attrs(t, s, p, l.len(), m) == Ok::<(Map<Seq<char>, Seq<char>>, int), BinaryNodeError>((
            insert_all(m, l),
            p + real_attr_list(t, l)->Ok_0.len(),
        )),
    decreases l.len(),
{
    if l.len() > 0 {
        lemma_attr_list_front(t, l);
        let k = text_bytes(t, l[0].0@)->Ok_0;
        let v = text_bytes(t, l[0].1@)->Ok_0;
        let rest = real_attr_list(t, l.drop_first())->Ok_0;
        assert(k + v + rest == k + (v + rest));
        lemma_occurs_split(s, p, k, v + rest);
        lemma_occurs_split(s, p + k.len(), v, rest);
        lemma_folded_text(t, l[0].0@, s, p);
        lemma_folded_text(t, l[0].1@, s, p + k.len());
        assert forall|i: int| 0 <= i < l.drop_first().len() implies text_roundtrips(
            t,
            (#[trigger] l.drop_first()[i]).0@,
        ) && text_roundtrips(t, l.drop_first()[i].1@) by {
            assert(l.drop_first()[i] == l[i + 1]);
        }
        lemma_real_attrs_roundtrip(t, l.drop_first(), s, p + k.len() + v.len(), m.insert(l[0].0@, l[0].1@));
        assert((l.len() - 1) as nat == l.drop_first().len());
    }
}

/// Every tag, attribute key and attribute value of the tree round-trips.
pub open spec fn texts_roundtrip(t: TablesView, n: &BinaryNode) -> bool
    decreases n,
{
    &&& text_roundtrips(t, n.tag@)
    &&& forall|i: int|
        0 <= i < n.attrs@.len() ==> text_roundtrips(t, (#[trigger] n.attrs@[i]).0@) && text_roundtrips(
            t,
            n.attrs@[i].1@,
        )
    &&& match &n.content {
        NodeContent::Nodes(v) => forall|i: int| 0 <= i < v@.len() ==> texts_roundtrip(t, &#[trigger] v@[i]),
        _ => true,
    }
}

#[verifier::rlimit(80)]
#[verifier::spinoff_prover]
proof fn lemma_real_node_roundtrip(t: TablesView, n: &BinaryNode, s: Seq<u8>, p: int)
    requires
        tables_roundtrip(t),
        node_wf(n),
        texts_roundtrip(t, n),
        encode_real_node_spec(t, n) is Ok,
        occurs_at(s, p, encode_real_node_spec(t, n)->Ok_0),
    ensures
        real_node(t, s, p) == Ok::<(NodeView, int), BinaryNodeError>((
            node_view(n),
            p + encode_real_node_spec(t, n)->Ok_0.len(),
        )),
    decreases n, 1int, 0int,
{
    lemma_node_view_unfold(n);
    let size = 2 * n.attrs@.len() + 1 + if n.content is Empty { 0nat } else { 1nat };
    let h = list_start_spec(size)->Ok_0;
    let tg = text_bytes(t, n.tag@)->Ok_0;
    let sorted = sort_attrs(n.attrs@);
    let a = real_attr_list(t, sorted)->Ok_0;
    let head = h + tg + a;
    let b = encode_real_node_spec(t, n)->Ok_0;
    let tail = b.subrange(head.len() as int, b.len() as int);
    assert(b == head + tail) by {
        assert(b.subrange(0, head.len() as int) =~= head);
        assert(b =~= b.subrange(0, head.len() as int) + tail);
    }
    assert(head + tail == h + (tg + (a + tail)));
    lemma_occurs_split(s, p, h, tg + (a + tail));
    lemma_occurs_split(s, p + h.len(), tg, a + tail);
    lemma_occurs_split(s, p + h.len() + tg.len(), a, tail);
    lemma_list_start(size, s, p);
    lemma_folded_text(t, n.tag@, s, p + h.len());
    lemma_sort_attrs(n.attrs@);
    assert forall|i: int| 0 <= i < sorted.len() implies text_roundtrips(t, (#[trigger] sorted[i]).0@)
        && text_roundtrips(t, sorted[i].1@) by {
        let k = choose|k: int| 0 <= k < n.attrs@.len() && sorted[i] == #[trigger] n.attrs@[k];
    }
    lemma_real_attrs_roundtrip(t, sorted, s, p + h.len() + tg.len(), Map::empty());
    lemma_insert_all_is_attrs_map(sorted);
    assert((size - 1) / 2 == n.attrs@.len());
    let q = p + head.len();
    match &n.content {
        NodeContent::Empty => {
            assert(tail.len() == 0);
        },
        NodeContent::Bytes(x) => {
            let l = byte_length_spec(x@.len())->Ok_0;
            assert(tail =~= l + x@);
            lemma_occurs_split(s, q, l, x@);
            lemma_byte_length(x@.len(), s, q);
            assert(s.subrange(q + l.len(), q + l.len() + x@.len()) == x@);
            assert(real_content(t, s, q + 1, s[q]) == Ok::<(ContentView, int), BinaryNodeError>((
                ContentView::Bytes(x@),
                q + l.len() + x@.len(),
            )));
        },
        NodeContent::Nodes(v) => {
            let l = list_start_spec(v@.len())->Ok_0;
            let c = real_children_spec(t, n, 0)->Ok_0;
            assert(tail =~= l + c);
            lemma_occurs_split(s, q, l, c);
            lemma_list_start(v@.len(), s, q);
            lemma_real_children_roundtrip(t, n, 0, s, q + l.len(), Seq::empty());
            assert(Seq::<NodeView>::empty() + Seq::new((v@.len() - 0) as nat, |k: int| node_view(&v@[0 + k]))
                =~= Seq::new(v@.len(), |k: int| node_view(&v@[k])));
            assert(real_list(t, s, q + 1, s[q]) == Ok::<(Seq<NodeView>, int), BinaryNodeError>((
                Seq::new(v@.len(), |k: int| node_view(&v@[k])),
                q + l.len() + c.len(),
            )));
        },
    }
}

proof fn lemma_real_children_roundtrip(
    t: TablesView,
    parent: &BinaryNode,
    i: int,
    s: Seq<u8>,
    p: int,
    acc: Seq<NodeView>,
)
    requires
        tables_roundtrip(t),
        parent.content is Nodes,
        0 <= i <= parent.content->Nodes_0@.len(),
        forall|k: int| 0 <= k < parent.content->Nodes_0@.len() ==> node_wf(&#[trigger] parent.content->Nodes_0@[k]),
        forall|k: int|
            0 <= k < parent.content->Nodes_0@.len() ==> texts_roundtrip(t, &#[trigger] parent.content->Nodes_0@[k]),
        real_children_spec(t, parent, i) is Ok,
        occurs_at(s, p, real_children_spec(t, parent, i)->Ok_0),
    ensures
        real_nodes(t, s, p, (parent.content->Nodes_0@.len() - i) as nat, acc) == Ok::<
            (Seq<NodeView>, int),
            BinaryNodeError,
        >((
            acc + Seq::new(
                (parent.content->Nodes_0@.len() - i) as nat,
                |k: int| node_view(&parent.content->Nodes_0@[i + k]),
            ),
            p + real_children_spec(t, parent, i)->Ok_0.len(),
        )),
    decreases parent, 0int, parent.content->Nodes_0@.len() - i,
{
    let v = parent.content->Nodes_0;
    if i == v@.len() {
        assert(acc + Seq::new(0, |k: int| node_view(&v@[i + k])) =~= acc);
    } else {
        let child = &v@[i];
        let b = encode_real_node_spec(t, child)->Ok_0;
        let rest = real_children_spec(t, parent, i + 1)->Ok_0;
        lemma_occurs_split(s, p, b, rest);
        lemma_real_node_roundtrip(t, child, s, p);
        lemma_real_node_advances(t, child);
        lemma_real_children_roundtrip(t, parent, i + 1, s, p + b.len(), acc.push(node_view(child)));
        assert(acc.push(node_view(child)) + Seq::new(
            (v@.len() - (i + 1)) as nat,
            |k: int| node_view(&v@[i + 1 + k]),
        ) =~= acc + Seq::new((v@.len() - i) as nat, |k: int| node_view(&v@[i + k])));
        assert((v@.len() - i - 1) as nat == ((v@.len() - i) as nat - 1) as nat);
    }
}

proof fn lemma_real_node_advances(t: TablesView, n: &BinaryNode)
    requires
        encode_real_node_spec(t, n) is Ok,
    ensures
        encode_real_node_spec(t, n)->Ok_0.len() > 0,
{
    let size = 2 * n.attrs@.len() + 1 + if n.content is Empty { 0nat } else { 1nat };
    let h = list_start_spec(size)->Ok_0;
    let b = encode_real_node_spec(t, n)->Ok_0;
    assert(h.len() > 0);
    match &n.content {
        NodeContent::Empty => {},
        NodeContent::Bytes(x) => {},
        NodeContent::Nodes(v) => {},
    }
}

/// Decoding an uncompressed frame that the encoder wrote gives back the node
/// (same tag, same attribute map, same content, recursively), when the token
/// dictionaries leave index 0 unused and every tag, key and value is text the
/// encoder writes in a form the decoder reads back (see [`text_roundtrips`]).
pub proof fn law_real_roundtrip(tables: &TokenTables, n: &BinaryNode)
    requires
        tables.wf(),
        tables@.single.len() > 0 ==> tables@.single[0].len() == 0,
        n.wf(),
        texts_roundtrip(tables@, n),
        encode_real_spec(tables@, n) is Ok,
    ensures
        decompress_spec(encode_real_spec(tables@, n)->Ok_0) matches Ok(body) && spec_decode_real_body(tables@, body)
            == Ok::<NodeView, BinaryNodeError>(n@),
{
    let t = tables@;
    assert(tables_roundtrip(t)) by {
        assert forall|d: int| 0 <= d < t.double.len() implies (#[trigger] t.double[d]).len() <= 256 by {
            assert(t.double[d].len() == tables.double@[d]@.len());
        }
    }
    let b = encode_real_node_spec(t, n)->Ok_0;
    let frame = seq![0u8] + b;
    lemma_real_node_advances(t, n);
    assert(frame[0] == 0u8);
    assert(0u8 & 2 == 0) by (bit_vector);
    assert(frame.skip(1) =~= b);
    assert(b.subrange(0, b.len() as int) =~= b);
    lemma_real_node_roundtrip(t, n, b, 0);
}

/// No tag, attribute key or attribute value of the tree holds `@`.
pub open spec fn texts_without_at(n: &BinaryNode) -> bool
    decreases n,
{
    &&& !n.tag@.contains('@')
    &&& forall|i: int|
        0 <= i < n.attrs@.len() ==> !(#[trigger] n.attrs@[i]).0@.contains('@') && !n.attrs@[i].1@.contains('@')
    &&& match &n.content {
        NodeContent::Nodes(v) => forall|i: int| 0 <= i < v@.len() ==> texts_without_at(&#[trigger] v@[i]),
        _ => true,
    }
}

proof fn lemma_text_without_at(t: TablesView, v: Seq<char>)
    requires
        !v.contains('@'),
    ensures
        text_roundtrips(t, v),
{
    assert forall|i: int| 0 <= i < v.len() implies v[i] != '@' by {
        if v[i] == '@' {
            assert(v.contains('@'));
        }
    }
    crate::text::lemma_split_once_none(v, '@');
}

proof fn lemma_texts_without_at(t: TablesView, n: &BinaryNode)
    requires
        texts_without_at(n),
    ensures
        texts_roundtrip(t, n),
    decreases n,
{
    lemma_text_without_at(t, n.tag@);
    assert forall|i: int| 0 <= i < n.attrs@.len() implies text_roundtrips(t, (#[trigger] n.attrs@[i]).0@)
        && text_roundtrips(t, n.attrs@[i].1@) by {
        lemma_text_without_at(t, n.attrs@[i].0@);
        lemma_text_without_at(t, n.attrs@[i].1@);
    }
    match &n.content {
        NodeContent::Nodes(v) => {
            assert forall|i: int| 0 <= i < v@.len() implies texts_roundtrip(t, &#[trigger] v@[i]) by {
                lemma_texts_without_at(t, &v@[i]);
            }
        },
        _ => {},
    }
}

/// Round trip for trees whose texts hold no `@`: whenever such a tree encodes,
/// decompressing and decoding the frame gives the tree back.
pub proof fn law_real_roundtrip_without_at(tables: &TokenTables, n: &BinaryNode)
    requires
        tables.wf(),
        tables@.single.len() > 0 ==> tables@.single[0].len() == 0,
        n.wf(),
        texts_without_at(n),
        encode_real_spec(tables@, n) is Ok,
    ensures
        decompress_spec(encode_real_spec(tables@, n)->Ok_0) matches Ok(body) && spec_decode_real_body(tables@, body)
            == Ok::<NodeView, BinaryNodeError>(n@),
{
    lemma_texts_without_at(tables@, n);
    law_real_roundtrip(tables, n);
}

proof fn lemma_encode_utf8_append(a: Seq<char>, b: Seq<char>)
    ensures
        encode_utf8(a + b) == encode_utf8(a) + encode_utf8(b),
    decreases a.len(),
{
    if a.len() == 0 {
        assert(a + b =~= b);
        assert(encode_utf8(a) + encode_utf8(b) =~= encode_utf8(b));
    } else {
        assert((a + b).drop_first() =~= a.drop_first() + b);
        assert((a + b)[0] == a[0]);
        lemma_encode_utf8_append(a.drop_first(), b);
        assert(encode_utf8(a + b) =~= encode_utf8(a) + encode_utf8(b));
    }
}

/// Text holding `@` packs neither as nibbles nor as hexadecimal digits.
proof fn lemma_at_sign_not_packed(v: Seq<char>, k: int)
    requires
        0 <= k < v.len(),
        v[k] == '@',
    ensures
        !is_nibble_spec(encode_utf8(v)),
        !is_hex_spec(encode_utf8(v)),
{
    let a = v.subrange(0, k);
    let b = v.subrange(k + 1, v.len() as int);
    assert(v =~= a + seq!['@'] + b);
    lemma_encode_utf8_append(a + seq!['@'], b);
    lemma_encode_utf8_append(a, seq!['@']);
    assert(is_ascii_chars(seq!['@']));
    is_ascii_chars_encode_utf8(seq!['@']);
    let e = encode_utf8(v);
    let n = encode_utf8(a).len() as int;
    assert(e[n] == 64u8);
}

/// Domain type of the AD JID form for the servers that form can carry.
pub open spec fn ad_jid_domain(server: Seq<char>) -> u8 {
    if server == "lid"@ {
        1
    } else if server == "hosted"@ {
        128
    } else if server == "hosted.lid"@ {
        129
    } else {
        0
    }
}

/// A JID that carries a device round-trips: `user:device@server`, for a
/// device from 1 to 255 and a server among `s.whatsapp.net`, `lid`,
/// `hosted` and `hosted.lid`, is written as an AD JID whose domain byte names
/// the server (1 for `lid`, 128 for `hosted`, 129 for `hosted.lid`, 0 for
/// `s.whatsapp.net`), and reading it gives the same text back.
pub proof fn law_device_jid_roundtrip(t: TablesView, user: Seq<char>, device: u16, server: Seq<char>, s: Seq<u8>, p: int)
    requires
        tables_roundtrip(t),
        forall|i: int| 0 <= i < user.len() ==> user[i] != '@' && user[i] != ':' && user[i] != '_',
        text_roundtrips(t, user),
        write_string_spec(t, user) is Ok,
        0 < device <= 255,
        server == "lid"@ || server == "hosted"@ || server == "hosted.lid"@ || server == "s.whatsapp.net"@,
        token_lookup(t, jid_encode_spec_text(user, device, server)) is None,
        occurs_at(
            s,
            p,
            seq![247u8, ad_jid_domain(server), device as u8] + write_string_spec(t, user)->Ok_0,
        ),
    ensures
        write_string_spec(t, jid_encode_spec_text(user, device, server)) == Ok::<Seq<u8>, BinaryNodeError>(
            seq![247u8, ad_jid_domain(server), device as u8] + write_string_spec(t, user)->Ok_0,
        ),
        string_at(t, s, p) == Ok::<(Seq<char>, int), BinaryNodeError>((
            jid_encode_spec_text(user, device, server),
            p + 3 + write_string_spec(t, user)->Ok_0.len(),
        )),
{
    reveal_strlit("lid");
    reveal_strlit("hosted");
    reveal_strlit("hosted.lid");
    reveal_strlit("s.whatsapp.net");
    let v = jid_encode_spec_text(user, device, server);
    let digits = crate::text::decimal_chars(device as nat);
    crate::text::lemma_parse_decimal(device as nat, 65535);
    crate::text::lemma_decimal_bytes_ascii(device as nat);
    crate::text::lemma_split_once_none(user, '_');
    let up = user + seq![':'] + digits;
    assert forall|i: int| 0 <= i < up.len() implies up[i] != '@' by {
        if i > user.len() {
            assert(up[i] == digits[i - user.len() - 1]);
            assert(digits[i - user.len() - 1] == crate::text::decimal_bytes(device as nat)[i - user.len() - 1] as char);
        }
    }
    assert(v == up + seq!['@'] + server);
    crate::text::lemma_split_once_at(up, '@', server);
    crate::text::lemma_split_once_at(user, ':', digits);
    assert((device as nat) as u16 == device);
    let j = jid_decode_spec(v)->Some_0;
    assert(j.user == user && j.server == server && j.device == Some(device));
    assert(j.domain_type == ad_jid_domain(server));
    assert(v[up.len() as int] == '@');
    lemma_at_sign_not_packed(v, up.len() as int);
    assert(v.len() > 0);
    assert(j.user.len() + j.server.len() + 1 <= v.len());
    let ub = write_string_spec(t, user)->Ok_0;
    assert(write_jid_spec(t, j) == Ok::<Seq<u8>, BinaryNodeError>(seq![247u8, ad_jid_domain(server), device as u8] + ub));
    let b = seq![247u8, ad_jid_domain(server), device as u8] + ub;
    lemma_occurs_split(s, p, seq![247u8, ad_jid_domain(server), device as u8], ub);
    assert(s.subrange(p, p + b.len())[0] == s[p]);
    assert(s.subrange(p, p + b.len())[1] == s[p + 1]);
    assert(s.subrange(p, p + b.len())[2] == s[p + 2]);
    assert(s[p] == 247u8 && s[p + 1] == ad_jid_domain(server) && s[p + 2] == device as u8);
    lemma_text_roundtrip(t, user, s, p + 3);
    assert(crate::wabinary::ad_jid_server(ad_jid_domain(server)) == server);
}

/// `user:device@server`.
pub open spec fn jid_encode_spec_text(user: Seq<char>, device: u16, server: Seq<char>) -> Seq<char> {
    user + seq![':'] + crate::text::decimal_chars(device as nat) + seq!['@'] + server
}

} // verus!
