use vstd::prelude::*;

use crate::crypto::{aes256gcm_decrypt, aes256gcm_encrypt, aes_gcm_max_len, aes_gcm_open, aes_gcm_seal, hkdf_sha256_64, hkdf_sha256_64_spec, sha256, sha256_spec};
use crate::error::NoiseError;
use crate::noise_md::{build_nonce, initial_hash, initialize_handshake_hash, next_counter, nonce_spec, NOISE_MODE, NOISE_WA_HEADER};
use crate::text::concat;

verus! {

/// Stateful Noise primitives for the WA session.
#[derive(Debug, Clone, Copy)]
pub struct NoiseState {
    h: [u8; 32],
    chaining_key: [u8; 32],
    session_key: [u8; 32],
    send_counter: u32,
    recv_counter: u32,
}

/// Model of a [`NoiseState`].
pub struct NoiseView {
    pub h: Seq<u8>,
    pub chaining_key: Seq<u8>,
    pub session_key: Seq<u8>,
    pub send_counter: u32,
    pub recv_counter: u32,
}

impl View for NoiseState {
    type V = NoiseView;

    closed spec fn view(&self) -> NoiseView {
        NoiseView {
            h: self.h@,
            chaining_key: self.chaining_key@,
            session_key: self.session_key@,
            send_counter: self.send_counter,
            recv_counter: self.recv_counter,
        }
    }
}

impl NoiseState {
    /// Creates a new Noise state and mixes the provided prologue.
    pub fn new(prologue: &[u8]) -> (r: Self)
        ensures
            r@ == (NoiseView {
                h: sha256_spec(initial_hash(NOISE_MODE@) + prologue@),
                chaining_key: initial_hash(NOISE_MODE@),
                session_key: Seq::new(32, |i: int| 0u8),
                send_counter: 0,
                recv_counter: 0,
            }),
    {
        let h = initialize_handshake_hash(NOISE_MODE.as_slice());
        let mut state = NoiseState { h, chaining_key: h, session_key: [0_u8; 32], send_counter: 0, recv_counter: 0 };
        assert(state.session_key@ =~= Seq::new(32, |i: int| 0u8));
        state.mix_hash(prologue);
        state
    }

    /// Creates a new Noise state using the WhatsApp prologue.
    pub fn new_wa() -> (r: Self)
        ensures
            r@ == (NoiseView {
                h: sha256_spec(initial_hash(NOISE_MODE@) + NOISE_WA_HEADER@),
                chaining_key: initial_hash(NOISE_MODE@),
                session_key: Seq::new(32, |i: int| 0u8),
                send_counter: 0,
                recv_counter: 0,
            }),
    {
        Self::new(NOISE_WA_HEADER.as_slice())
    }

    /// Mixes data into handshake hash.
    pub fn mix_hash(&mut self, data: &[u8])
        ensures
            final(self)@ == (NoiseView { h: sha256_spec(old(self)@.h + data@), ..old(self)@ }),
    {
        let input = concat(self.h.as_slice(), data);
        self.h = sha256(input.as_slice());
    }

    /// Mixes key material using HKDF-SHA256 and updates chaining/session keys.
    pub fn mix_into_key(&mut self, ikm: &[u8])
        ensures
            final(self)@ == (NoiseView {
                chaining_key: hkdf_sha256_64_spec(old(self)@.chaining_key, ikm@).subrange(0, 32),
                session_key: hkdf_sha256_64_spec(old(self)@.chaining_key, ikm@).subrange(32, 64),
                ..old(self)@
            }),
    {
        let output = hkdf_sha256_64(&self.chaining_key, ikm);
        let mut i: usize = 0;
        let ghost ck0 = self.chaining_key@;
        while i < 32
            invariant
                i <= 32,
                output@ == hkdf_sha256_64_spec(ck0, ikm@),
                self.chaining_key@.len() == 32,
                self.session_key@.len() == 32,
                forall|j: int| 0 <= j < i ==> self.chaining_key@[j] == output@[j] && self.session_key@[j] == output@[j + 32],
                self.h == old(self).h,
                self.send_counter == old(self).send_counter,
                self.recv_counter == old(self).recv_counter,
                ck0 == old(self).chaining_key@,
            decreases 32 - i,
        {
            self.chaining_key[i] = output[i];
            self.session_key[i] = output[i + 32];
            i += 1;
        }
        assert(self.chaining_key@ =~= output@.subrange(0, 32));
        assert(self.session_key@ =~= output@.subrange(32, 64));
    }

    /// Encrypts plaintext using the current sending counter (which advances even
    /// when the cipher refuses the input).
    pub fn encrypt_with_ad(&mut self, plaintext: &[u8], ad: &[u8]) -> (r: Result<Vec<u8>, NoiseError>)
        ensures
            final(self)@ == (NoiseView { send_counter: next_counter(old(self)@.send_counter), ..old(self)@ }),
            (plaintext@.len() <= aes_gcm_max_len() && ad@.len() <= aes_gcm_max_len()) ==> r is Ok
                && r->Ok_0@ == aes_gcm_seal(old(self)@.session_key, nonce_spec(old(self)@.send_counter), plaintext@, ad@)
                && aes_gcm_open(old(self)@.session_key, nonce_spec(old(self)@.send_counter), r->Ok_0@, ad@) == Some(plaintext@),
            !(plaintext@.len() <= aes_gcm_max_len() && ad@.len() <= aes_gcm_max_len()) ==> r == Err::<Vec<u8>, NoiseError>(NoiseError::Cipher),
    {
        let nonce = build_nonce(self.send_counter);
        self.send_counter = self.send_counter.wrapping_add(1);
        match aes256gcm_encrypt(&self.session_key, &nonce, plaintext, ad) {
            Some(c) => Ok(c),
            None => Err(NoiseError::Cipher),
        }
    }

    /// Decrypts ciphertext using the current receiving counter (which advances even
    /// when authentication fails).
    pub fn decrypt_with_ad(&mut self, ciphertext: &[u8], ad: &[u8]) -> (r: Result<Vec<u8>, NoiseError>)
        ensures
            final(self)@ == (NoiseView { recv_counter: next_counter(old(self)@.recv_counter), ..old(self)@ }),
            match aes_gcm_open(old(self)@.session_key, nonce_spec(old(self)@.recv_counter), ciphertext@, ad@) {
                Some(p) => r is Ok && r->Ok_0@ == p,
                None => r == Err::<Vec<u8>, NoiseError>(NoiseError::Cipher),
            },
    {
        let nonce = build_nonce(self.recv_counter);
        self.recv_counter = self.recv_counter.wrapping_add(1);
        match aes256gcm_decrypt(&self.session_key, &nonce, ciphertext, ad) {
            Some(p) => Ok(p),
            None => Err(NoiseError::Cipher),
        }
    }

    /// Returns the current handshake hash for associated data.
    pub fn handshake_hash(&self) -> (r: [u8; 32])
        ensures
            r@ == self@.h,
    {
        self.h
    }
}

} // verus!
