use chatwarp_api::binary_node::{decode, encode, insert_attr, synthetic_token_string, BinaryNode, NodeContent};
use chatwarp_api::error::BinaryNodeError;

fn node(tag: &str, attrs: &[(&str, &str)], content: NodeContent) -> BinaryNode {
    BinaryNode {
        tag: tag.to_string(),
        attrs: attrs.iter().map(|(k, v)| (k.to_string(), v.to_string())).collect(),
        content,
    }
}

#[test]
fn encodes_tokens_raw_strings_and_empty_body() {
    let n = node("message", &[("to", "abc")], NodeContent::Empty);
    assert_eq!(encode(&n).expect("encode"), vec![1, 1, 0, 1, 1, 3, 2, 0, 3, 97, 98, 99, 0]);
}

#[test]
fn attributes_are_written_sorted_by_key() {
    let n = node("message", &[("type", "x"), ("id", "1")], NodeContent::Empty);
    assert_eq!(
        encode(&n).expect("encode"),
        vec![1, 1, 0, 2, 1, 11, 2, 0, 1, b'1', 1, 4, 2, 0, 1, b'x', 0]
    );
}

#[test]
fn decode_inverts_encode() {
    let child = node("item", &[("id", "7")], NodeContent::Bytes(vec![0, 255, 3]));
    let other = node("custom-tag", &[], NodeContent::Empty);
    let n = node(
        "message",
        &[("to", "123@s.whatsapp.net"), ("type", "text")],
        NodeContent::Nodes(vec![child, other]),
    );
    let bytes = encode(&n).expect("encode");
    let back = decode(&bytes).expect("decode");
    assert_eq!(back.tag, n.tag);
    assert_eq!(back.content, n.content);
    let mut attrs = back.attrs.clone();
    attrs.sort();
    let mut expected = n.attrs.clone();
    expected.sort();
    assert_eq!(attrs, expected);
}

#[test]
fn decode_errors_name_the_fault() {
    assert_eq!(decode(&[]), Err(BinaryNodeError::UnexpectedEof));
    assert_eq!(decode(&[9]), Err(BinaryNodeError::InvalidSymbolType(9)));
    assert_eq!(decode(&[1, 200, 0, 0, 0]), Err(BinaryNodeError::UnknownToken(200)));
    assert_eq!(decode(&[1, 1, 0, 0, 0, 5]), Err(BinaryNodeError::TrailingBytes));
    assert_eq!(decode(&[1, 1, 0, 0, 7]), Err(BinaryNodeError::InvalidContentType(7)));
    assert_eq!(decode(&[2, 0, 1, 0xff, 0, 0, 0]), Err(BinaryNodeError::InvalidUtf8));
    assert_eq!(decode(&[1, 1, 0, 0, 1, 0, 0, 0, 9, 1]), Err(BinaryNodeError::UnexpectedEof));
}

#[test]
fn decode_reads_bytes_body() {
    let n = decode(&[1, 2, 0, 0, 1, 0, 0, 0, 2, 7, 8]).expect("decode");
    assert_eq!(n.tag, "body");
    assert!(n.attrs.is_empty());
    assert_eq!(n.content, NodeContent::Bytes(vec![7, 8]));
}

#[test]
fn insert_attr_replaces_existing_key() {
    let mut attrs = vec![("id".to_string(), "1".to_string())];
    insert_attr(&mut attrs, "id".to_string(), "2".to_string());
    insert_attr(&mut attrs, "to".to_string(), "x".to_string());
    assert_eq!(
        attrs,
        vec![("id".to_string(), "2".to_string()), ("to".to_string(), "x".to_string())]
    );
}

#[test]
fn token_dictionary_entries() {
    assert_eq!(synthetic_token_string(1), "message");
    assert_eq!(synthetic_token_string(11), "id");
    assert_eq!(synthetic_token_string(12), "");
}
