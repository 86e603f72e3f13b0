use chatwarp_api::binary_node::{BinaryNode, NodeContent};
use chatwarp_api::error::BinaryNodeError;
use chatwarp_api::wabinary::{
    decode_real, decompress_if_required, encode_real, is_hex, is_nibble, jid_decode, jid_encode, pack_char,
    unpack_hex, unpack_nibble, wa_token_lookup, TokenTables, WaTag,
};
use std::io::Write;

fn tables() -> TokenTables {
    TokenTables {
        single: ["", "iq", "type", "result", "id", "pair-device", "ref", "s.whatsapp.net", "pair-success", "device", "jid"]
            .iter()
            .map(|s| s.to_string())
            .collect(),
        double: vec![vec!["read-self".to_string(), "unavailable".to_string()]],
    }
}

fn node(tag: &str, attrs: &[(&str, &str)], content: NodeContent) -> BinaryNode {
    BinaryNode {
        tag: tag.to_string(),
        attrs: attrs.iter().map(|(k, v)| (k.to_string(), v.to_string())).collect(),
        content,
    }
}

#[test]
fn encodes_tokens_in_a_list() {
    let t = tables();
    let n = node("iq", &[("type", "result")], NodeContent::Empty);
    assert_eq!(encode_real(&t, &n).expect("encode"), vec![0, 248, 3, 1, 2, 3]);
}

#[test]
fn encodes_double_tokens_nibbles_hex_and_raw() {
    let t = tables();
    let n = node("iq", &[("type", "unavailable")], NodeContent::Empty);
    assert_eq!(encode_real(&t, &n).expect("encode"), vec![0, 248, 3, 1, 2, 236, 1]);
    let n = node("iq", &[("id", "123")], NodeContent::Empty);
    assert_eq!(encode_real(&t, &n).expect("encode"), vec![0, 248, 3, 1, 4, 255, 130, 0x12, 0x3f]);
    let n = node("iq", &[("id", "AB")], NodeContent::Empty);
    assert_eq!(encode_real(&t, &n).expect("encode"), vec![0, 248, 3, 1, 4, 251, 1, 0xab]);
    let n = node("iq", &[("id", "x-1")], NodeContent::Empty);
    assert_eq!(encode_real(&t, &n).expect("encode"), vec![0, 248, 3, 1, 4, 252, 3, b'x', b'-', b'1']);
}

#[test]
fn encodes_jids_and_byte_bodies() {
    let t = tables();
    let n = node("iq", &[("jid", "12@s.whatsapp.net")], NodeContent::Bytes(vec![5, 6]));
    assert_eq!(
        encode_real(&t, &n).expect("encode"),
        vec![0, 248, 4, 1, 10, 250, 255, 1, 0x12, 7, 252, 2, 5, 6]
    );
    let n = node("iq", &[("jid", "12:3@s.whatsapp.net")], NodeContent::Empty);
    assert_eq!(encode_real(&t, &n).expect("encode"), vec![0, 248, 3, 1, 10, 247, 0, 3, 255, 1, 0x12]);
}

#[test]
fn real_decode_inverts_encode() {
    let t = tables();
    let inner = node("ref", &[], NodeContent::Bytes(b"2@abc".to_vec()));
    let pair = node("pair-device", &[], NodeContent::Nodes(vec![inner]));
    let n = node(
        "iq",
        &[("type", "result"), ("id", "x-1"), ("jid", "12:3@s.whatsapp.net")],
        NodeContent::Nodes(vec![pair]),
    );
    let bytes = encode_real(&t, &n).expect("encode");
    let back = decode_real(&t, &bytes).expect("decode");
    assert_eq!(back.tag, n.tag);
    assert_eq!(back.content, n.content);
    let mut attrs = back.attrs.clone();
    attrs.sort();
    let mut expected = n.attrs.clone();
    expected.sort();
    assert_eq!(attrs, expected);
}

#[test]
fn compressed_frames_are_inflated() {
    let t = tables();
    let body = [248u8, 3, 1, 2, 3];
    let mut encoder = flate2::write::ZlibEncoder::new(Vec::new(), flate2::Compression::default());
    encoder.write_all(&body).expect("compress");
    let mut frame = vec![2u8];
    frame.extend(encoder.finish().expect("compress"));
    assert_eq!(decompress_if_required(&frame).expect("inflate"), body.to_vec());
    let n = decode_real(&t, &frame).expect("decode");
    assert_eq!(n.tag, "iq");
}

#[test]
fn frame_errors() {
    let t = tables();
    assert_eq!(decode_real(&t, &[]), Err(BinaryNodeError::InvalidCompressedNode));
    assert_eq!(decode_real(&t, &[0]), Err(BinaryNodeError::InvalidCompressedNode));
    assert_eq!(decode_real(&t, &[2, 1, 2, 3]), Err(BinaryNodeError::InflateFailed));
    assert_eq!(decode_real(&t, &[0, 248, 1, 1, 9]), Err(BinaryNodeError::TrailingBytes));
    assert!(encode_real(&t, &node("", &[], NodeContent::Empty)).is_err());
}

#[test]
fn packing_helpers() {
    assert!(is_nibble("123-4.5"));
    assert!(!is_nibble("12a"));
    assert!(!is_nibble(""));
    assert!(is_hex("0A9F"));
    assert!(!is_hex("0a"));
    assert_eq!(pack_char('7', 255), Ok(7));
    assert_eq!(pack_char('.', 255), Ok(11));
    assert_eq!(pack_char('c', 251), Ok(12));
    assert_eq!(pack_char('x', 255), Err(BinaryNodeError::InvalidPackedChar(b'x')));
    assert_eq!(unpack_nibble(10), Ok(b'-'));
    assert_eq!(unpack_nibble(15), Ok(0));
    assert_eq!(unpack_hex(11), Ok(b'B'));
}

#[test]
fn jid_split_and_join() {
    let j = jid_decode("5511_2:7@lid").expect("jid");
    assert_eq!(j.user, "5511");
    assert_eq!(j.server, "lid");
    assert_eq!(j.device, Some(7));
    assert_eq!(j.domain_type, 1);
    assert!(jid_decode("plain").is_none());
    assert!(jid_decode("a:x@b").is_none());
    assert_eq!(jid_encode("1", "s.whatsapp.net", Some(2)), "1:2@s.whatsapp.net");
    assert_eq!(jid_encode("1", "g.us", None), "1@g.us");
}

#[test]
fn token_lookup_prefers_double_dictionaries() {
    let t = tables();
    assert_eq!(wa_token_lookup(&t, "iq"), Some((None, 1)));
    assert_eq!(wa_token_lookup(&t, "read-self"), Some((Some(0), 0)));
    assert_eq!(wa_token_lookup(&t, "nothing"), None);
}

#[test]
fn tag_codes() {
    assert_eq!(WaTag::from_u8(248), Some(WaTag::List8));
    assert_eq!(WaTag::from_u8(7), None);
}
