use chatwarp_api::error::SignalError;
use chatwarp_api::session::{decrypt, decrypt_with_session, encrypt, encrypt_with_session, init_session};
use chatwarp_api::signal::{InMemorySignalStore, SessionBundle, SignalSession};

fn bundle(peer: [u8; 32]) -> SessionBundle {
    SessionBundle { peer_identity_key: peer, shared_secret: [7; 32], pre_key_id: 1, signed_pre_key_id: 2 }
}

#[test]
fn sealed_message_opens_on_the_peer() {
    let mut alice = InMemorySignalStore::from_identity_key([1; 32]);
    let mut bob = InMemorySignalStore::from_identity_key([2; 32]);
    init_session("bob@s.whatsapp.net", &bundle([2; 32]), &mut alice).expect("alice session");
    init_session("alice@s.whatsapp.net", &bundle([1; 32]), &mut bob).expect("bob session");

    let first = encrypt("bob@s.whatsapp.net", b"hello", &mut alice).expect("encrypt");
    let second = encrypt("bob@s.whatsapp.net", b"again", &mut alice).expect("encrypt");
    assert_eq!(&first[..4], &[0, 0, 0, 0]);
    assert_eq!(&second[..4], &[0, 0, 0, 1]);
    assert_eq!(first.len(), 9);
    assert_ne!(&first[4..], b"hello");

    assert_eq!(decrypt("alice@s.whatsapp.net", &first, &mut bob).expect("decrypt"), b"hello".to_vec());
    assert_eq!(decrypt("alice@s.whatsapp.net", &second, &mut bob).expect("decrypt"), b"again".to_vec());
}

#[test]
fn encrypt_without_session_fails() {
    let mut store = InMemorySignalStore::from_identity_key([3; 32]);
    assert_eq!(encrypt("nobody", b"x", &mut store), Err(SignalError::MissingSession));
    assert_eq!(decrypt("nobody", &[0, 0, 0, 0, 1], &mut store), Err(SignalError::MissingSession));
}

#[test]
fn short_payload_is_invalid_ciphertext() {
    let mut store = InMemorySignalStore::from_identity_key([3; 32]);
    assert_eq!(decrypt("nobody", &[0, 0, 1], &mut store), Err(SignalError::InvalidCiphertext));
    let session = SignalSession { root_key: [5; 32], send_counter: 0, recv_counter: 0 };
    assert_eq!(decrypt_with_session(&session, &[1, 2]), Err(SignalError::InvalidCiphertext));
}

#[test]
fn counters_advance() {
    let session = SignalSession { root_key: [5; 32], send_counter: u32::MAX, recv_counter: 3 };
    let (payload, next) = encrypt_with_session(&session, b"abc");
    assert_eq!(next.send_counter, 0);
    assert_eq!(&payload[..4], &[255, 255, 255, 255]);
    let (plain, after) = decrypt_with_session(&session, &payload).expect("decrypt");
    assert_eq!(plain, b"abc".to_vec());
    assert_eq!(after.recv_counter, u32::MAX);
    let old = SignalSession { recv_counter: 10, ..session };
    let (_, after_old) = decrypt_with_session(&old, &[0, 0, 0, 2, 9]).expect("decrypt");
    assert_eq!(after_old.recv_counter, 10);
}

#[test]
fn long_payload_uses_several_keystream_blocks() {
    let session = SignalSession { root_key: [9; 32], send_counter: 4, recv_counter: 0 };
    let text: Vec<u8> = (0..100u8).collect();
    let (payload, _) = encrypt_with_session(&session, &text);
    assert_eq!(payload.len(), 104);
    let (plain, _) = decrypt_with_session(&session, &payload).expect("decrypt");
    assert_eq!(plain, text);
}
