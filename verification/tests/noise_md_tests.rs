use chatwarp_api::noise_md::{build_intro_header, build_nonce, NoiseMdState};

#[test]
fn intro_header_without_routing_uses_wa_prefix() {
    let mut state = NoiseMdState::new([1_u8; 32], None);
    let encoded = state.encode_frame(b"abc").expect("encode");
    assert_eq!(&encoded[..4], &[87, 65, 6, 3]);
    assert_eq!(&encoded[4..7], &[0, 0, 3]);
}

#[test]
fn intro_header_with_routing_uses_ed_prefix() {
    let mut state = NoiseMdState::new([2_u8; 32], Some(&[9, 8, 7, 6]));
    let encoded = state.encode_frame(b"x").expect("encode");
    assert_eq!(&encoded[..2], b"ED");
    assert_eq!(&encoded[4..7], &[0, 0, 4]);
}

#[test]
fn intro_header_is_sent_once() {
    let mut state = NoiseMdState::new([3_u8; 32], None);
    let first = state.encode_frame(b"ab").expect("encode");
    let second = state.encode_frame(b"cd").expect("encode");
    assert_eq!(first, vec![87, 65, 6, 3, 0, 0, 2, b'a', b'b']);
    assert_eq!(second, vec![0, 0, 2, b'c', b'd']);
}

#[test]
fn routing_header_carries_length_and_routing_bytes() {
    let header = build_intro_header(Some(&[9, 8, 7, 6]));
    assert_eq!(header, vec![b'E', b'D', 0, 1, 0, 0, 4, 9, 8, 7, 6, 87, 65, 6, 3]);
    assert_eq!(build_intro_header(None), vec![87, 65, 6, 3]);
}

#[test]
fn nonce_holds_counter_in_last_four_bytes() {
    let nonce = build_nonce(0x01020304);
    assert_eq!(nonce, [0, 0, 0, 0, 0, 0, 0, 0, 1, 2, 3, 4]);
}

#[test]
fn decode_frames_splits_complete_frames() {
    let mut state = NoiseMdState::new([4_u8; 32], None);
    let frames = state.decode_frames(&[0, 0, 2, 1, 2, 0, 0]).expect("decode");
    assert_eq!(frames, vec![vec![1, 2]]);
    let frames = state.decode_frames(&[1, 7]).expect("decode");
    assert_eq!(frames, vec![vec![7]]);
}

#[test]
fn server_hello_candidates_in_order() {
    let mut state = NoiseMdState::new([5_u8; 32], None);
    let raw = vec![0, 0, 3, b'a', b'b', b'c'];
    let candidates = state.server_hello_candidates(&raw);
    assert_eq!(candidates, vec![b"abc".to_vec(), raw.clone(), b"abc".to_vec()]);
    let mut state = NoiseMdState::new([5_u8; 32], None);
    let partial = vec![0, 0, 9, 1];
    assert_eq!(state.server_hello_candidates(&partial), vec![partial.clone()]);
}
