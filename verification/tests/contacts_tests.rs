use chatwarp_api::binary_node::{BinaryNode, NodeContent};
use chatwarp_api::contacts::{ContactInfo, IsOnWhatsAppResult, Jid, JidParseError, LearningSource, ProfilePicture};
use chatwarp_api::handshake::{attr_value, child_by_tag};
use chatwarp_api::spam_report::{build_spam_list_node, spam_report_result, ReplyContent, ReplyNode, SpamFlow, SpamReportRequest};

fn attr<'a>(node: &'a BinaryNode, key: &str) -> Option<&'a str> {
    attr_value(node, key).map(|s| s.as_str())
}

#[test]
fn test_contact_info_struct() {
    let jid: Jid = "1234567890@s.whatsapp.net"
        .parse()
        .expect("test JID should be valid");
    let lid: Jid = "12345678@lid".parse().expect("test JID should be valid");

    let info = ContactInfo {
        jid: jid.clone(),
        lid: Some(lid.clone()),
        is_registered: true,
        is_business: false,
        status: Some("Hey there!".to_string()),
        picture_id: Some(123456789),
    };

    assert!(info.is_registered);
    assert!(!info.is_business);
    assert_eq!(info.status, Some("Hey there!".to_string()));
    assert_eq!(info.picture_id, Some(123456789));
    assert!(info.lid.is_some());
}

#[test]
fn test_profile_picture_struct() {
    let pic = ProfilePicture {
        id: "123456789".to_string(),
        url: "https://example.com/pic.jpg".to_string(),
        direct_path: Some("/v/pic.jpg".to_string()),
    };

    assert_eq!(pic.id, "123456789");
    assert_eq!(pic.url, "https://example.com/pic.jpg");
    assert!(pic.direct_path.is_some());
}

#[test]
fn test_is_on_whatsapp_result_struct() {
    let jid: Jid = "1234567890@s.whatsapp.net"
        .parse()
        .expect("test JID should be valid");
    let result = IsOnWhatsAppResult {
        jid,
        is_registered: true,
    };

    assert!(result.is_registered);
}

#[test]
fn jid_parse_reads_user_device_and_server() {
    let jid = Jid::parse_str("5511999887766:12@s.whatsapp.net").expect("valid");
    assert_eq!(jid.user, "5511999887766");
    assert_eq!(jid.server, "s.whatsapp.net");
    assert_eq!(jid.device, 12);
    assert_eq!(jid.to_jid_string(), "5511999887766:12@s.whatsapp.net");
}

#[test]
fn jid_without_at_is_malformed() {
    assert_eq!(Jid::parse_str("no-server"), Err(JidParseError::Malformed));
}

#[test]
fn jid_constructors_pick_their_servers() {
    assert_eq!(Jid::pn("5511999887766").to_jid_string(), "5511999887766@s.whatsapp.net");
    assert_eq!(Jid::group("120363025918861132").to_jid_string(), "120363025918861132@g.us");
}

#[test]
fn test_learning_source_serialization() {
    let sources = [
        (LearningSource::Usync, "usync"),
        (LearningSource::PeerPnMessage, "peer_pn_message"),
        (LearningSource::PeerLidMessage, "peer_lid_message"),
        (LearningSource::RecipientLatestLid, "recipient_latest_lid"),
        (LearningSource::MigrationSyncLatest, "migration_sync_latest"),
        (LearningSource::MigrationSyncOld, "migration_sync_old"),
        (LearningSource::BlocklistActive, "blocklist_active"),
        (LearningSource::BlocklistInactive, "blocklist_inactive"),
        (LearningSource::Pairing, "pairing"),
        (LearningSource::Other, "other"),
    ];

    for (source, expected_str) in sources {
        assert_eq!(source.as_str(), expected_str);
        assert_eq!(LearningSource::parse(expected_str), source);
    }

    // Unknown string should map to Other
    assert_eq!(LearningSource::parse("unknown"), LearningSource::Other);
}

#[test]
fn test_spam_flow_as_str() {
    assert_eq!(SpamFlow::MessageMenu.as_str(), "MessageMenu");
    assert_eq!(
        SpamFlow::GroupSpamBannerReport.as_str(),
        "GroupSpamBannerReport"
    );
    assert_eq!(SpamFlow::ContactInfo.as_str(), "ContactInfo");
}

#[test]
fn test_build_spam_list_node_basic() {
    let request = SpamReportRequest {
        message_id: "TEST123".to_string(),
        message_timestamp: 1234567890,
        spam_flow: SpamFlow::MessageMenu,
        ..Default::default()
    };

    let node = build_spam_list_node(&request);

    assert_eq!(node.tag, "spam_list");
    assert_eq!(attr(&node, "spam_flow"), Some("MessageMenu"));

    let message = child_by_tag(&node, "message").expect("spam_list node should have message child");
    assert_eq!(attr(message, "id"), Some("TEST123"));
    assert_eq!(attr(message, "t"), Some("1234567890"));
}

#[test]
fn test_build_spam_list_node_with_raw_message() {
    let request = SpamReportRequest {
        message_id: "TEST456".to_string(),
        message_timestamp: 1234567890,
        from_jid: Some(Jid::pn("5511999887766")),
        spam_flow: SpamFlow::MessageMenu,
        raw_message: Some(vec![0x01, 0x02, 0x03]),
        media_type: Some("image".to_string()),
        ..Default::default()
    };

    let node = build_spam_list_node(&request);
    let message = child_by_tag(&node, "message").expect("spam_list node should have message child");
    let raw = child_by_tag(message, "raw").expect("message node should have raw child");

    assert_eq!(attr(raw, "v"), Some("3"));
    assert_eq!(attr(raw, "mediatype"), Some("image"));
}

#[test]
fn test_build_spam_list_node_group() {
    let request = SpamReportRequest {
        message_id: "TEST789".to_string(),
        message_timestamp: 1234567890,
        group_jid: Some(Jid::group("120363025918861132")),
        group_subject: Some("Test Group".to_string()),
        participant_jid: Some(Jid::pn("5511999887766")),
        spam_flow: SpamFlow::GroupInfoReport,
        ..Default::default()
    };

    let node = build_spam_list_node(&request);

    assert_eq!(attr(&node, "spam_flow"), Some("GroupInfoReport"));
    assert_eq!(attr(&node, "jid"), Some("120363025918861132@g.us"));
    assert_eq!(attr(&node, "subject"), Some("Test Group"));
}

#[test]
fn spam_list_sender_and_raw_bytes_are_carried() {
    let request = SpamReportRequest {
        message_id: "M1".to_string(),
        message_timestamp: 7,
        from_jid: Some(Jid::pn("123")),
        raw_message: Some(vec![9, 8]),
        ..Default::default()
    };
    let node = build_spam_list_node(&request);
    assert_eq!(attr(&node, "jid"), None);
    let message = child_by_tag(&node, "message").expect("message child");
    assert_eq!(attr(message, "from"), Some("123@s.whatsapp.net"));
    assert_eq!(attr(message, "participant"), None);
    let raw = child_by_tag(message, "raw").expect("raw child");
    assert_eq!(raw.content, NodeContent::Bytes(vec![9, 8]));
    assert_eq!(attr(raw, "mediatype"), None);
}

#[test]
fn spam_report_result_reads_report_id() {
    let reply = |content: ReplyContent| ReplyNode {
        tag: "iq".to_string(),
        content: ReplyContent::Nodes(vec![
            ReplyNode { tag: "other".to_string(), content: ReplyContent::Text("X".to_string()) },
            ReplyNode { tag: "report_id".to_string(), content },
        ]),
    };
    assert_eq!(spam_report_result(&reply(ReplyContent::Text("R-42".to_string()))).report_id, Some("R-42".to_string()));
    assert_eq!(spam_report_result(&reply(ReplyContent::Bytes(b"R-42".to_vec()))).report_id, None);
    let empty = ReplyNode { tag: "iq".to_string(), content: ReplyContent::Empty };
    assert_eq!(spam_report_result(&empty).report_id, None);
}

#[test]
fn jid_text_reads_back() {
    let j = Jid::pn("5511999887766");
    let back = Jid::parse_str(&j.to_jid_string()).expect("jid");
    assert_eq!((back.user.as_str(), back.server.as_str(), back.device), ("5511999887766", "s.whatsapp.net", 0));
    let d = Jid { user: "42".to_string(), server: "lid".to_string(), agent: 1, device: 7 };
    let back = Jid::parse_str(&d.to_jid_string()).expect("jid");
    assert_eq!((back.user.as_str(), back.server.as_str(), back.device, back.agent), ("42", "lid", 7, 1));
}
