use chatwarp_api::error::TransportError;
use chatwarp_api::frame::{build_frame, decode_raw_close_code, maybe_unframe, pop_framed_payload};
use chatwarp_api::qr::{generate_qr_string, render_qr_for_terminal, render_qr_svg_data_url};
use chatwarp_api::transport::{connect_options_for, next_raw_step, str_contains, WsAction, WsEvent};

#[test]
fn frames_carry_a_24_bit_length() {
    assert_eq!(build_frame(b"abc").expect("frame"), vec![0, 0, 3, b'a', b'b', b'c']);
    let big = vec![0u8; 16_777_216];
    assert_eq!(build_frame(&big), Err(TransportError::FrameTooLarge));
}

#[test]
fn pop_takes_complete_frames_only() {
    let mut buffer = vec![0, 0, 2, 1, 2, 0, 0, 3, 9];
    assert_eq!(pop_framed_payload(&mut buffer), Ok(Some(vec![1, 2])));
    assert_eq!(buffer, vec![0, 0, 3, 9]);
    assert_eq!(pop_framed_payload(&mut buffer), Ok(None));
    assert_eq!(buffer, vec![0, 0, 3, 9]);
}

#[test]
fn unframe_and_close_codes() {
    assert_eq!(maybe_unframe(&[0, 0, 1, 7, 8]), Some(&[7u8][..]));
    assert_eq!(maybe_unframe(&[0, 0, 5, 7]), None);
    assert_eq!(decode_raw_close_code(&[0x88, 0x02, 0x0f, 0xa0]), Some(4000));
    assert_eq!(decode_raw_close_code(&[0x88, 0x02, 0x0f]), None);
}

#[test]
fn raw_reader_decisions() {
    assert!(matches!(next_raw_step(WsEvent::Ping(vec![1])), WsAction::SendPong(p) if p == vec![1]));
    assert!(matches!(next_raw_step(WsEvent::Binary(vec![5, 6])), WsAction::Deliver(p) if p == vec![5, 6]));
    assert!(matches!(
        next_raw_step(WsEvent::Binary(vec![0x88, 0x02, 0x03, 0xe8])),
        WsAction::Fail(TransportError::ClosedWithCode(1000))
    ));
    assert!(matches!(next_raw_step(WsEvent::Close(None)), WsAction::Fail(TransportError::Closed)));
    assert!(matches!(
        next_raw_step(WsEvent::Close(Some(1001))),
        WsAction::Fail(TransportError::ClosedWithCode(1001))
    ));
    assert!(matches!(next_raw_step(WsEvent::Text), WsAction::Continue));
    assert!(matches!(next_raw_step(WsEvent::Pong), WsAction::Continue));
}

#[test]
fn web_origin_for_wa_urls() {
    assert_eq!(
        connect_options_for("wss://web.whatsapp.com/ws/chat").origin,
        Some("https://web.whatsapp.com".to_string())
    );
    assert_eq!(connect_options_for("ws://localhost:1234").origin, None);
    assert!(str_contains("abcdef", "cde"));
    assert!(!str_contains("abc", "abcd"));
    assert!(str_contains("abc", ""));
}

#[test]
fn qr_payload_joins_parts_with_commas() {
    let qr = generate_qr_string("2@ref", &[0, 1, 2], &[255], "c2VjcmV0");
    assert_eq!(qr, "2@ref,AAEC,/w==,c2VjcmV0");
}

#[test]
fn qr_renderings() {
    let text = render_qr_for_terminal("2@ref,AAEC,/w==,c2VjcmV0").expect("render");
    assert!(text.contains('█') || text.contains('▀') || text.contains('▄'));
    let url = render_qr_svg_data_url("2@ref").expect("render");
    assert!(url.starts_with("data:image/svg+xml;base64,"));
    assert!(url.len() > "data:image/svg+xml;base64,".len());
}
