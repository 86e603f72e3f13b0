use chatwarp_api::binary_node::{encode, BinaryNode, NodeContent};
use chatwarp_api::error::HandshakeError;
use chatwarp_api::handshake::{
    client_hello_message, encode_big_endian, extract_login_jid_from_real_payload,
    extract_qr_reference_from_node, extract_qr_reference_from_real_payload, fixed_key, parse_jid_for_login,
    parse_qr_reference, preview_hex, scan_post_finish_payloads,
};
use chatwarp_api::wabinary::{encode_real, TokenTables};

fn node(tag: &str, attrs: &[(&str, &str)], content: NodeContent) -> BinaryNode {
    BinaryNode {
        tag: tag.to_string(),
        attrs: attrs.iter().map(|(k, v)| (k.to_string(), v.to_string())).collect(),
        content,
    }
}

fn tables() -> TokenTables {
    TokenTables {
        single: ["", "iq", "pair-device", "ref", "pair-success", "device", "jid"].iter().map(|s| s.to_string()).collect(),
        double: vec![],
    }
}

#[test]
fn fixed_key_checks_length() {
    assert_eq!(fixed_key(&[], "server_static"), Err(HandshakeError::MissingField("server_static")));
    assert_eq!(fixed_key(&[1, 2], "server_static"), Err(HandshakeError::InvalidKeyLength("server_static")));
    assert_eq!(fixed_key(&[9; 32], "server_static"), Ok([9; 32]));
}

#[test]
fn big_endian_widths() {
    assert_eq!(encode_big_endian(0x01020304, 4), vec![1, 2, 3, 4]);
    assert_eq!(encode_big_endian(0x01020304, 2), vec![3, 4]);
    assert_eq!(encode_big_endian(7, 0), Vec::<u8>::new());
}

#[test]
fn login_jid_parts() {
    assert_eq!(parse_jid_for_login("5511999887766:12@s.whatsapp.net"), Some((5511999887766, 12)));
    assert_eq!(parse_jid_for_login("5511@s.whatsapp.net"), Some((5511, 0)));
    assert_eq!(parse_jid_for_login("5511:x@s.whatsapp.net"), Some((5511, 0)));
    assert_eq!(parse_jid_for_login("abc@s.whatsapp.net"), None);
    assert_eq!(parse_jid_for_login("5511"), None);
}

#[test]
fn hex_preview_is_truncated() {
    assert_eq!(preview_hex(&[0x0a, 0xff, 0x10], 2), "0a ff");
    assert_eq!(preview_hex(&[], 4), "");
    assert_eq!(preview_hex(&[1], 4), "01");
}

#[test]
fn qr_reference_from_json_or_text() {
    assert_eq!(parse_qr_reference(br#"{"ref":" 2@abc "}"#), Some("2@abc".to_string()));
    assert_eq!(parse_qr_reference(br#"{"ref":"  ","reference":"r2"}"#), Some("r2".to_string()));
    assert_eq!(parse_qr_reference(b"  plain-ref\n"), Some("plain-ref".to_string()));
    assert_eq!(parse_qr_reference(b""), None);
    assert_eq!(parse_qr_reference(b"   "), None);
    assert_eq!(parse_qr_reference(&[0xff, 0xfe]), None);
}

#[test]
fn qr_reference_from_synthetic_node() {
    let by_body = encode(&node("ref", &[], NodeContent::Bytes(b" 2@xyz ".to_vec()))).expect("encode");
    assert_eq!(extract_qr_reference_from_node(&by_body), Some("2@xyz".to_string()));
    let by_attr = encode(&node("message", &[("ref", "r-9")], NodeContent::Empty)).expect("encode");
    assert_eq!(extract_qr_reference_from_node(&by_attr), Some("r-9".to_string()));
    let none = encode(&node("message", &[], NodeContent::Empty)).expect("encode");
    assert_eq!(extract_qr_reference_from_node(&none), None);
    assert_eq!(extract_qr_reference_from_node(&[7, 7]), None);
}

#[test]
fn qr_reference_and_login_jid_from_real_payloads() {
    let t = tables();
    let pair = node(
        "iq",
        &[],
        NodeContent::Nodes(vec![node(
            "pair-device",
            &[],
            NodeContent::Nodes(vec![node("ref", &[], NodeContent::Bytes(b"2@ref-one".to_vec()))]),
        )]),
    );
    let pair_bytes = encode_real(&t, &pair).expect("encode");
    assert_eq!(extract_qr_reference_from_real_payload(&t, &pair_bytes), Some("2@ref-one".to_string()));
    assert_eq!(extract_login_jid_from_real_payload(&t, &pair_bytes), None);

    let success = node(
        "iq",
        &[],
        NodeContent::Nodes(vec![node(
            "pair-success",
            &[],
            NodeContent::Nodes(vec![node("device", &[("jid", "5511:3@s.whatsapp.net")], NodeContent::Empty)]),
        )]),
    );
    let success_bytes = encode_real(&t, &success).expect("encode");
    assert_eq!(
        extract_login_jid_from_real_payload(&t, &success_bytes),
        Some("5511:3@s.whatsapp.net".to_string())
    );

    let (refs, kept, jid) = scan_post_finish_payloads(&t, vec![pair_bytes.clone(), vec![0, 0], success_bytes.clone()]);
    assert_eq!(refs, vec!["2@ref-one".to_string()]);
    assert_eq!(kept, vec![pair_bytes, vec![0, 0], success_bytes]);
    assert_eq!(jid, Some("5511:3@s.whatsapp.net".to_string()));
}

#[test]
fn client_hello_carries_only_the_ephemeral_key() {
    let hello = client_hello_message(&[4; 32]);
    assert_eq!(hello.client_ephemeral, vec![4; 32]);
    assert!(hello.server_ephemeral.is_empty());
    assert!(hello.encrypted_static.is_empty());
    assert!(hello.payload.is_empty());
}
