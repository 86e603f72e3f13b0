use chatwarp_api::binary_node::NodeContent;
use chatwarp_api::error::MessageError;
use chatwarp_api::handshake::attr_value;
use chatwarp_api::message::{
    build_message_node, format_message_id, generate_message_id, validate_operation, MessageContent, MessageOperation,
    OutgoingMessage,
};

fn text_message(to: &str) -> OutgoingMessage {
    OutgoingMessage { to: to.to_string(), content: MessageContent::Text { text: "hi".to_string() } }
}

#[test]
fn operations_parse_from_route_names() {
    assert_eq!(MessageOperation::parse("sendText"), Ok(MessageOperation::SendText));
    assert_eq!(MessageOperation::parse("sendWhatsAppAudio"), Ok(MessageOperation::SendWhatsAppAudio));
    assert_eq!(MessageOperation::SendButtons.as_str(), "sendButtons");
    assert_eq!(
        MessageOperation::parse("sendFax"),
        Err(MessageError::InvalidOperation("sendFax".to_string()))
    );
}

#[test]
fn every_operation_name_parses_back() {
    let all = [
        MessageOperation::SendTemplate,
        MessageOperation::SendText,
        MessageOperation::SendMedia,
        MessageOperation::SendPtv,
        MessageOperation::SendWhatsAppAudio,
        MessageOperation::SendStatus,
        MessageOperation::SendSticker,
        MessageOperation::SendLocation,
        MessageOperation::SendContact,
        MessageOperation::SendReaction,
        MessageOperation::SendPoll,
        MessageOperation::SendList,
        MessageOperation::SendButtons,
    ];
    for op in all {
        assert_eq!(MessageOperation::parse(op.as_str()), Ok(op));
    }
}

#[test]
fn content_must_fit_operation() {
    let msg = text_message("1@s.whatsapp.net");
    assert_eq!(validate_operation(MessageOperation::SendText, &msg), Ok(()));
    assert_eq!(
        validate_operation(MessageOperation::SendPoll, &msg),
        Err(MessageError::InvalidContentForOperation { operation: "sendPoll".to_string() })
    );
    let video = OutgoingMessage {
        to: "1@s.whatsapp.net".to_string(),
        content: MessageContent::Video { data_base64: "AA==".to_string(), caption: None },
    };
    assert_eq!(validate_operation(MessageOperation::SendMedia, &video), Ok(()));
    assert_eq!(validate_operation(MessageOperation::SendPtv, &video), Ok(()));
}

#[test]
fn message_node_carries_route_attributes() {
    let msg = text_message("5511@s.whatsapp.net");
    let node = build_message_node("msg-1", MessageOperation::SendText, &msg, None, b"{}".to_vec());
    assert_eq!(node.tag, "message");
    assert_eq!(attr_value(&node, "to").map(|s| s.as_str()), Some("5511@s.whatsapp.net"));
    assert_eq!(attr_value(&node, "op").map(|s| s.as_str()), Some("sendText"));
    assert_eq!(attr_value(&node, "id").map(|s| s.as_str()), Some("msg-1"));
    assert_eq!(attr_value(&node, "registrationId"), None);
    assert_eq!(node.content, NodeContent::Bytes(b"{}".to_vec()));
}

#[test]
fn message_id_format() {
    assert_eq!(format_message_id(1234, [0xab, 0x01, 0xff, 0x10]), "msg-0000000001234-ab01ff10");
    assert_eq!(format_message_id(12345678901234, [0, 0, 0, 0]), "msg-12345678901234-00000000");
    let generated = generate_message_id();
    assert!(generated.starts_with("msg-"));
    assert_eq!(generated.len(), 4 + 13 + 1 + 8);
}
