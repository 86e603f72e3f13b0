use vstd::prelude::*;

use crate::binary_node::{be32, push_u32_be, u32_be};
use crate::crypto::{sha256, sha256_spec};
use crate::error::SignalError;
use crate::signal::{map_get, SessionBundle, SignalSession, SignalStore};
use crate::text::{bytes_lt, concat, lex_lt, push_all};

verus! {

/// Bytes hashed to obtain keystream block `block` of message `counter`.
pub open spec fn mask_block_input(root_key: Seq<u8>, counter: u32, block: nat) -> Seq<u8> {
    root_key + u32_be(counter as int) + u32_be((block % 4294967296) as int)
}

/// The first `len` bytes of the keystream of message `counter`: the
/// concatenation of `SHA-256(root_key || counter || block)` for block = 0, 1, ...
pub open spec fn mask_spec(root_key: Seq<u8>, counter: u32, len: nat) -> Seq<u8> {
    Seq::new(
        len,
        |j: int| sha256_spec(mask_block_input(root_key, counter, (j / 32) as nat))[j % 32],
    )
}

/// Byte-wise exclusive or, as long as the shorter input.
pub open spec fn xor_spec(a: Seq<u8>, b: Seq<u8>) -> Seq<u8> {
    Seq::new(if a.len() <= b.len() { a.len() } else { b.len() }, |i: int| a[i] ^ b[i])
}

/// Root key of a session between identities `local` and `peer`: the SHA-256 of
/// the shared secret followed by the two identity keys in ascending order.
pub open spec fn root_key_spec(shared_secret: Seq<u8>, local: Seq<u8>, peer: Seq<u8>) -> Seq<u8> {
    if lex_lt(peer, local) {
        sha256_spec(shared_secret + peer + local)
    } else {
        sha256_spec(shared_secret + local + peer)
    }
}

/// Wire form of `plaintext` sealed as message `counter`: the counter in four
/// big-endian bytes, then the plaintext masked with the keystream.
pub open spec fn seal_spec(root_key: Seq<u8>, counter: u32, plaintext: Seq<u8>) -> Seq<u8> {
    u32_be(counter as int) + xor_spec(plaintext, mask_spec(root_key, counter, plaintext.len()))
}

/// Counter carried by a sealed payload (at least four bytes long).
pub open spec fn payload_counter(payload: Seq<u8>) -> u32 {
    be32(payload, 0) as u32
}

/// Plaintext of a sealed payload (at least four bytes long).
pub open spec fn open_spec(root_key: Seq<u8>, payload: Seq<u8>) -> Seq<u8> {
    xor_spec(payload.skip(4), mask_spec(root_key, payload_counter(payload), (payload.len() - 4) as nat))
}

/// Session state after sending one message.
pub open spec fn after_send(s: SignalSession) -> SignalSession {
    SignalSession { send_counter: vstd::wrapping::u32_specs::wrapping_add(s.send_counter, 1), ..s }
}

/// Session state after receiving message `counter`.
pub open spec fn after_receive(s: SignalSession, counter: u32) -> SignalSession {
    if counter >= s.recv_counter {
        SignalSession {
            recv_counter: if counter == u32::MAX { u32::MAX } else { (counter + 1) as u32 },
            ..s
        }
    } else {
        s
    }
}

/// Keystream of `len` bytes for message `counter`.
fn derive_mask(root_key: [u8; 32], counter: u32, len: usize) -> (r: Vec<u8>)
    ensures
        r@ == mask_spec(root_key@, counter, len as nat),
{
    let mut output: Vec<u8> = Vec::new();
    let mut block_index: u32 = 0;
    let ghost mut k: nat = 0;
    while output.len() < len
        invariant
            output@.len() <= len,
            output@.len() < len ==> output@.len() == 32 * k,
            block_index as int == k % 4294967296,
            forall|j: int|
                0 <= j < output@.len() ==> output@[j] == #[trigger] mask_spec(root_key@, counter, len as nat)[j],
        decreases len - output@.len(),
    {
        let mut input: Vec<u8> = Vec::new();
        push_all(&mut input, root_key.as_slice());
        push_u32_be(&mut input, counter);
        push_u32_be(&mut input, block_index);
        assert(input@ == mask_block_input(root_key@, counter, k));
        let block = sha256(input.as_slice());
        let remaining = len - output.len();
        let take: usize = if remaining < 32 { remaining } else { 32 };
        let ghost base = output@.len();
        let mut t: usize = 0;
        while t < take
            invariant
                output@.len() == base + t,
                t <= take <= 32,
                base + take <= len,
                base == 32 * k,
                block@ == sha256_spec(mask_block_input(root_key@, counter, k)),
                forall|j: int|
                    0 <= j < output@.len() ==> output@[j] == #[trigger] mask_spec(root_key@, counter, len as nat)[j],
            decreases take - t,
        {
            let ghost j = base + t;
            assert(j / 32 == k && j % 32 == t) by (nonlinear_arith)
                requires
                    j == 32 * k + t,
                    0 <= t < 32,
            ;
            output.push(block[t]);
            t += 1;
        }
        proof {
            assert((block_index as int + 1 > u32::MAX) ==> (k + 1) % 4294967296 == 0) by (nonlinear_arith)
                requires
                    block_index as int == k % 4294967296,
            ;
            assert((block_index as int + 1 <= u32::MAX) ==> (k + 1) % 4294967296 == block_index as int + 1) by (nonlinear_arith)
                requires
                    block_index as int == k % 4294967296,
            ;
        }
        block_index = block_index.wrapping_add(1);
        proof {
            k = k + 1;
        }
    }
    assert(output@ =~= mask_spec(root_key@, counter, len as nat));
    output
}

/// Byte-wise exclusive or of `input` with `mask`, as long as the shorter one.
fn xor_bytes(input: &[u8], mask: &[u8]) -> (r: Vec<u8>)
    ensures
        r@ == xor_spec(input@, mask@),
{
    let n: usize = if input.len() <= mask.len() { input.len() } else { mask.len() };
    let mut out: Vec<u8> = Vec::new();
    let mut i: usize = 0;
    while i < n
        invariant
            i <= n,
            n == xor_spec(input@, mask@).len(),
            out@ == xor_spec(input@, mask@).take(i as int),
        decreases n - i,
    {
        out.push(input[i] ^ mask[i]);
        i += 1;
        assert(out@ =~= xor_spec(input@, mask@).take(i as int));
    }
    assert(out@ =~= xor_spec(input@, mask@));
    out
}

/// Seals `plaintext` with a session: returns the wire payload and the session
/// with its send counter advanced (wrapping).
pub fn encrypt_with_session(session: &SignalSession, plaintext: &[u8]) -> (r: (Vec<u8>, SignalSession))
    ensures
        r.0@ == seal_spec(session.root_key@, session.send_counter, plaintext@),
        r.1 == after_send(*session),
{
    let counter = session.send_counter;
    let mask = derive_mask(session.root_key, counter, plaintext.len());
    let ciphertext = xor_bytes(plaintext, mask.as_slice());
    let mut output: Vec<u8> = Vec::new();
    push_u32_be(&mut output, counter);
    push_all(&mut output, ciphertext.as_slice());
    let next = SignalSession { send_counter: counter.wrapping_add(1), ..*session };
    (output, next)
}

/// Opens a sealed payload with a session: returns the plaintext and the session
/// with its receive counter advanced past the payload's counter.
pub fn decrypt_with_session(session: &SignalSession, payload: &[u8]) -> (r: Result<(Vec<u8>, SignalSession), SignalError>)
    ensures
        payload@.len() < 4 ==> r == Err::<(Vec<u8>, SignalSession), SignalError>(SignalError::InvalidCiphertext),
        payload@.len() >= 4 ==> (r matches Ok((p, s)) && p@ == open_spec(session.root_key@, payload@)
            && s == after_receive(*session, payload_counter(payload@))),
{
    if payload.len() < 4 {
        return Err(SignalError::InvalidCiphertext);
    }
    let counter: u32 = payload[0] as u32 * 16777216 + payload[1] as u32 * 65536 + payload[2] as u32 * 256
        + payload[3] as u32;
    let mut ciphertext: Vec<u8> = Vec::new();
    let mut i: usize = 4;
    while i < payload.len()
        invariant
            4 <= i <= payload@.len(),
            ciphertext@ == payload@.subrange(4, i as int),
        decreases payload@.len() - i,
    {
        ciphertext.push(payload[i]);
        i += 1;
        assert(ciphertext@ =~= payload@.subrange(4, i as int));
    }
    assert(ciphertext@ =~= payload@.skip(4));
    let mask = derive_mask(session.root_key, counter, ciphertext.len());
    let plaintext = xor_bytes(ciphertext.as_slice(), mask.as_slice());
    let mut next = *session;
    if counter >= session.recv_counter {
        next.recv_counter = counter.saturating_add(1);
    }
    Ok((plaintext, next))
}

/// Initializes a peer session from bundle material: checks that the local
/// identity and both pre-keys can be read, then stores a session whose root key
/// hashes the shared secret with both identity keys in ascending order.
pub fn init_session<S: SignalStore>(jid: &str, bundle: &SessionBundle, store: &mut S) -> (r: Result<(), SignalError>)
    ensures
        r is Ok ==> final(store).sessions_view() == old(store).sessions_view().insert(
            jid@,
            final(store).sessions_view()[jid@],
        ),
        r is Ok ==> final(store).sessions_view()[jid@].root_key@ == root_key_spec(
            bundle.shared_secret@,
            old(store).identity_key_view()@,
            bundle.peer_identity_key@,
        ),
        r is Ok ==> final(store).sessions_view()[jid@].send_counter == 0,
        r is Ok ==> final(store).sessions_view()[jid@].recv_counter == 0,
        old(store).identity_available() && old(store).pre_keys_available() && old(
            store,
        ).signed_pre_keys_available() && old(store).sessions_available() ==> r is Ok,
{
    let local_identity = match store.local_identity_key() {
        Ok(k) => k,
        Err(e) => return Err(e),
    };
    match store.load_pre_key(bundle.pre_key_id) {
        Ok(_) => {},
        Err(e) => return Err(e),
    }
    match store.load_signed_pre_key(bundle.signed_pre_key_id) {
        Ok(_) => {},
        Err(e) => return Err(e),
    }
    let mut key_a = local_identity;
    let mut key_b = bundle.peer_identity_key;
    if bytes_lt(key_b.as_slice(), key_a.as_slice()) {
        let tmp = key_a;
        key_a = key_b;
        key_b = tmp;
    }
    let mut input = concat(bundle.shared_secret.as_slice(), key_a.as_slice());
    push_all(&mut input, key_b.as_slice());
    let root_key = sha256(input.as_slice());
    let session = SignalSession { root_key, send_counter: 0, recv_counter: 0 };
    let ghost before = store.sessions_view();
    let res = store.store_session(jid, session);
    proof {
        if res is Ok {
            assert(store.sessions_view() == before.insert(jid@, session));
            assert(store.sessions_view()[jid@] == session);
            assert(before.insert(jid@, session) == before.insert(jid@, store.sessions_view()[jid@]));
        }
    }
    res
}

/// Encrypts a payload for a peer session and advances its send counter.
pub fn encrypt<S: SignalStore>(jid: &str, plaintext: &[u8], store: &mut S) -> (r: Result<Vec<u8>, SignalError>)
    ensures
        !old(store).sessions_view().contains_key(jid@) ==> r is Err && *final(store) == *old(store),
        r matches Ok(c) ==> map_get(old(store).sessions_view(), jid@) matches Some(s)
            && c@ == seal_spec(s.root_key@, s.send_counter, plaintext@)
            && final(store).sessions_view() == old(store).sessions_view().insert(jid@, after_send(s)),
        old(store).sessions_available() && old(store).sessions_view().contains_key(jid@) ==> r is Ok,
        old(store).sessions_available() && !old(store).sessions_view().contains_key(jid@) ==> r == Err::<
            Vec<u8>,
            SignalError,
        >(SignalError::MissingSession) && final(store).sessions_view() == old(store).sessions_view(),
{
    let session = match store.load_session(jid) {
        Ok(Some(s)) => s,
        Ok(None) => return Err(SignalError::MissingSession),
        Err(e) => return Err(e),
    };
    let (output, next) = encrypt_with_session(&session, plaintext);
    match store.store_session(jid, next) {
        Ok(()) => Ok(output),
        Err(e) => Err(e),
    }
}

/// Decrypts a payload for a peer session and advances its receive counter.
pub fn decrypt<S: SignalStore>(jid: &str, payload: &[u8], store: &mut S) -> (r: Result<Vec<u8>, SignalError>)
    ensures
        payload@.len() < 4 ==> r == Err::<Vec<u8>, SignalError>(SignalError::InvalidCiphertext)
            && final(store).sessions_view() == old(store).sessions_view(),
        !old(store).sessions_view().contains_key(jid@) ==> r is Err && *final(store) == *old(store),
        r matches Ok(p) ==> payload@.len() >= 4 && (map_get(old(store).sessions_view(), jid@) matches Some(s)
            && p@ == open_spec(s.root_key@, payload@)
            && final(store).sessions_view() == old(store).sessions_view().insert(
                jid@,
                after_receive(s, payload_counter(payload@)),
            )),
        old(store).sessions_available() && payload@.len() >= 4 && old(store).sessions_view().contains_key(jid@)
            ==> r is Ok,
        old(store).sessions_available() && payload@.len() >= 4 && !old(store).sessions_view().contains_key(jid@)
            ==> r == Err::<Vec<u8>, SignalError>(SignalError::MissingSession) && final(store).sessions_view()
            == old(store).sessions_view(),
{
    if payload.len() < 4 {
        return Err(SignalError::InvalidCiphertext);
    }
    let session = match store.load_session(jid) {
        Ok(Some(s)) => s,
        Ok(None) => return Err(SignalError::MissingSession),
        Err(e) => return Err(e),
    };
    let (plaintext, next) = match decrypt_with_session(&session, payload) {
        Ok(v) => v,
        Err(e) => return Err(e),
    };
    match store.store_session(jid, next) {
        Ok(()) => Ok(plaintext),
        Err(e) => Err(e),
    }
}

proof fn lemma_be32_of_u32_be(v: u32)
    ensures
        be32(u32_be(v as int), 0) == v,
{
    let s = u32_be(v as int);
    assert((v / 16777216) as u8 as int * 16777216 + (v / 65536 % 256) as u8 as int * 65536
        + (v / 256 % 256) as u8 as int * 256 + (v % 256) as u8 as int == v) by (nonlinear_arith);
}

/// Opening a payload sealed under the same root key gives back the plaintext,
/// and the payload carries the counter it was sealed with.
pub proof fn law_seal_open(root_key: Seq<u8>, counter: u32, plaintext: Seq<u8>)
    ensures
        seal_spec(root_key, counter, plaintext).len() >= 4,
        payload_counter(seal_spec(root_key, counter, plaintext)) == counter,
        open_spec(root_key, seal_spec(root_key, counter, plaintext)) == plaintext,
{
    let payload = seal_spec(root_key, counter, plaintext);
    let mask = mask_spec(root_key, counter, plaintext.len());
    let ct = xor_spec(plaintext, mask);
    lemma_be32_of_u32_be(counter);
    assert(payload.skip(4) =~= ct);
    assert forall|i: int| 0 <= i < plaintext.len() implies #[trigger] xor_spec(ct, mask)[i] == plaintext[i] by {
        let a = plaintext[i];
        let m = mask[i];
        assert((a ^ m) ^ m == a) by (bit_vector);
    }
    assert(open_spec(root_key, payload) =~= plaintext);
}

proof fn lemma_lex_lt_asym(a: Seq<u8>, b: Seq<u8>)
    ensures
        !(lex_lt(a, b) && lex_lt(b, a)),
    decreases a.len(),
{
    if a.len() > 0 && b.len() > 0 && a[0] == b[0] {
        lemma_lex_lt_asym(a.drop_first(), b.drop_first());
    }
}

proof fn lemma_lex_lt_total(a: Seq<u8>, b: Seq<u8>)
    requires
        a.len() == b.len(),
        a != b,
    ensures
        lex_lt(a, b) || lex_lt(b, a),
    decreases a.len(),
{
    if a.len() == 0 {
        assert(a =~= b);
    } else if a[0] == b[0] {
        if a.drop_first() == b.drop_first() {
            assert(a =~= b) by {
                assert forall|i: int| 0 <= i < a.len() implies a[i] == b[i] by {
                    if i > 0 {
                        assert(a[i] == a.drop_first()[i - 1]);
                        assert(b[i] == b.drop_first()[i - 1]);
                    }
                }
            }
        }
        lemma_lex_lt_total(a.drop_first(), b.drop_first());
    }
}

/// Both ends of a session derive the same root key: swapping the local and the
/// peer identity keys (of equal length) leaves the root key unchanged.
pub proof fn law_root_key_symmetric(shared_secret: Seq<u8>, local: Seq<u8>, peer: Seq<u8>)
    requires
        local.len() == peer.len(),
    ensures
        root_key_spec(shared_secret, local, peer) == root_key_spec(shared_secret, peer, local),
{
    lemma_lex_lt_asym(local, peer);
    if local != peer {
        lemma_lex_lt_total(local, peer);
    }
}

} // verus!
