use chatwarp_api::error::NoiseError;
use chatwarp_api::noise::NoiseState;

fn hex(bytes: &[u8]) -> String {
    bytes.iter().map(|b| format!("{b:02x}")).collect()
}

#[test]
fn wa_prologue_sets_the_handshake_hash() {
    let state = NoiseState::new_wa();
    assert_eq!(hex(&state.handshake_hash()), "ffff0c9267310966f1311170c04b38c79504285bf5edf763e5c946492a50a755");
}

#[test]
fn mixed_key_encrypts_with_counter_nonces() {
    let mut sender = NoiseState::new_wa();
    sender.mix_into_key(b"abc");
    let first = sender.encrypt_with_ad(b"hello", b"ad").expect("encrypt");
    assert_eq!(hex(&first), "513e19f1b6f15c85c6b3bb7eed2d4e5d7e6638aa93");
    let second = sender.encrypt_with_ad(b"world", b"").expect("encrypt");
    assert_eq!(hex(&second), "b19a9c6b48bf21879918bdc08fabe212bfb87a7768");

    let mut receiver = NoiseState::new_wa();
    receiver.mix_into_key(b"abc");
    assert_eq!(receiver.decrypt_with_ad(&first, b"ad"), Ok(b"hello".to_vec()));
    assert_eq!(receiver.decrypt_with_ad(&second, b""), Ok(b"world".to_vec()));
}

#[test]
fn wrong_associated_data_fails() {
    let mut sender = NoiseState::new_wa();
    sender.mix_into_key(b"k");
    let ct = sender.encrypt_with_ad(b"x", b"one").expect("encrypt");
    let mut receiver = NoiseState::new_wa();
    receiver.mix_into_key(b"k");
    assert_eq!(receiver.decrypt_with_ad(&ct, b"two"), Err(NoiseError::Cipher));
}

#[test]
fn mix_hash_changes_the_hash() {
    let mut state = NoiseState::new(b"p");
    let before = state.handshake_hash();
    state.mix_hash(b"data");
    assert_ne!(state.handshake_hash(), before);
}
