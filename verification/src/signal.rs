use std::collections::HashMap;

use vstd::prelude::*;

use crate::binary_node::u32_be;
use crate::crypto::{random_32, sha256, sha256_spec};
use crate::error::SignalError;
use crate::text::{bytes_eq, bytes_lt, concat, lex_lt};

verus! {

broadcast use vstd::std_specs::hash::group_hash_axioms;

/// Bundle exchanged with a remote peer for synthetic session bootstrap.
#[derive(Debug, Clone, Copy, PartialEq, Eq)]
pub struct SessionBundle {
    /// Remote identity key bytes.
    pub peer_identity_key: [u8; 32],
    /// Shared seed used to derive the initial session key.
    pub shared_secret: [u8; 32],
    /// Identifier for remote one-time pre-key.
    pub pre_key_id: u32,
    /// Identifier for remote signed pre-key.
    pub signed_pre_key_id: u32,
}

/// Mutable per-peer synthetic Signal session.
#[derive(Debug, Clone, Copy, PartialEq, Eq)]
pub struct SignalSession {
    /// Root key for message key derivation.
    pub root_key: [u8; 32],
    /// Outbound message counter.
    pub send_counter: u32,
    /// Inbound message counter.
    pub recv_counter: u32,
}

/// The value stored under `k`, if any.
pub open spec fn map_get<K, V>(m: Map<K, V>, k: K) -> Option<V> {
    if m.contains_key(k) {
        Some(m[k])
    } else {
        None
    }
}

/// Access to local identity key material.
pub trait IdentityKeyStore {
    /// The local identity key.
    spec fn identity_key_view(&self) -> [u8; 32];

    /// Whether the identity key can be read (the backing storage answers).
    spec fn identity_available(&self) -> bool;

    /// Returns local identity key bytes.
    fn local_identity_key(&self) -> (r: Result<[u8; 32], SignalError>)
        ensures
            r matches Ok(k) ==> k == self.identity_key_view(),
            self.identity_available() ==> r is Ok,
    ;
}

/// Access to pre-key material.
pub trait PreKeyStore {
    /// The stored one-time pre-keys.
    spec fn pre_keys_view(&self) -> Map<u32, [u8; 32]>;

    /// Whether the pre-key storage answers every request.
    spec fn pre_keys_available(&self) -> bool;

    /// Loads a one-time pre-key by id.
    fn load_pre_key(&self, key_id: u32) -> (r: Result<Option<[u8; 32]>, SignalError>)
        ensures
            r matches Ok(o) ==> o == map_get(self.pre_keys_view(), key_id),
            self.pre_keys_available() ==> r is Ok,
    ;

    /// Stores a one-time pre-key by id.
    fn store_pre_key(&mut self, key_id: u32, key: [u8; 32]) -> (r: Result<(), SignalError>)
        ensures
            r is Ok ==> final(self).pre_keys_view() == old(self).pre_keys_view().insert(key_id, key),
            old(self).pre_keys_available() ==> r is Ok,
    ;
}

/// Access to signed pre-key material.
pub trait SignedPreKeyStore {
    /// The stored signed pre-keys.
    spec fn signed_pre_keys_view(&self) -> Map<u32, [u8; 32]>;

    /// Whether the signed pre-key storage answers every request.
    spec fn signed_pre_keys_available(&self) -> bool;

    /// Loads a signed pre-key by id.
    fn load_signed_pre_key(&self, key_id: u32) -> (r: Result<Option<[u8; 32]>, SignalError>)
        ensures
            r matches Ok(o) ==> o == map_get(self.signed_pre_keys_view(), key_id),
            self.signed_pre_keys_available() ==> r is Ok,
    ;

    /// Stores a signed pre-key by id.
    fn store_signed_pre_key(&mut self, key_id: u32, key: [u8; 32]) -> (r: Result<(), SignalError>)
        ensures
            r is Ok ==> final(self).signed_pre_keys_view() == old(self).signed_pre_keys_view().insert(key_id, key),
            old(self).signed_pre_keys_available() ==> r is Ok,
    ;
}

/// Access to remote session state.
pub trait SessionStore {
    /// The stored sessions by peer JID.
    spec fn sessions_view(&self) -> Map<Seq<char>, SignalSession>;

    /// Whether the session storage answers every request.
    spec fn sessions_available(&self) -> bool;

    /// Loads a peer session.
    fn load_session(&self, jid: &str) -> (r: Result<Option<SignalSession>, SignalError>)
        ensures
            r matches Ok(o) ==> o == map_get(self.sessions_view(), jid@),
            self.sessions_available() ==> r is Ok,
    ;

    /// Persists a peer session.
    fn store_session(&mut self, jid: &str, session: SignalSession) -> (r: Result<(), SignalError>)
        ensures
            r is Ok ==> final(self).sessions_view() == old(self).sessions_view().insert(jid@, session),
            old(self).sessions_available() ==> r is Ok,
    ;
}

/// Composed store capability for synthetic Signal flows.
pub trait SignalStore: IdentityKeyStore + PreKeyStore + SignedPreKeyStore + SessionStore {}

/// In-memory store implementation for synthetic Signal flows.
pub struct InMemorySignalStore {
    identity_key: [u8; 32],
    pre_keys: HashMap<u32, [u8; 32]>,
    signed_pre_keys: HashMap<u32, [u8; 32]>,
    sessions: Vec<(String, SignalSession)>,
}

/// Sessions denoted by an association list: later entries override earlier ones.
pub open spec fn sessions_map(s: Seq<(String, SignalSession)>) -> Map<Seq<char>, SignalSession>
    decreases s.len(),
{
    if s.len() == 0 {
        Map::empty()
    } else {
        sessions_map(s.drop_last()).insert(s.last().0@, s.last().1)
    }
}

proof fn lemma_sessions_map_last(s: Seq<(String, SignalSession)>, k: Seq<char>, j: int)
    requires
        -1 <= j < s.len(),
        j >= 0 ==> s[j].0@ == k,
        forall|i: int| j < i < s.len() ==> s[i].0@ != k,
    ensures
        j >= 0 ==> sessions_map(s).contains_key(k) && sessions_map(s)[k] == s[j].1,
        j < 0 ==> !sessions_map(s).contains_key(k),
    decreases s.len(),
{
    if s.len() > 0 && j < s.len() - 1 {
        lemma_sessions_map_last(s.drop_last(), k, j);
    }
}

proof fn lemma_sessions_map_update(s: Seq<(String, SignalSession)>, j: int, kv: (String, SignalSession))
    requires
        0 <= j < s.len(),
        s[j].0@ == kv.0@,
        forall|i: int| j < i < s.len() ==> s[i].0@ != kv.0@,
    ensures
        sessions_map(s.update(j, kv)) == sessions_map(s).insert(kv.0@, kv.1),
    decreases s.len(),
{
    let t = s.update(j, kv);
    if j == s.len() - 1 {
        assert(t.drop_last() == s.drop_last());
        assert(sessions_map(t) =~= sessions_map(s).insert(kv.0@, kv.1));
    } else {
        assert(t.drop_last() == s.drop_last().update(j, kv));
        lemma_sessions_map_update(s.drop_last(), j, kv);
        assert(sessions_map(t) =~= sessions_map(s).insert(kv.0@, kv.1));
    }
}

/// Position of the last session stored under `jid`.
fn last_session_index(sessions: &Vec<(String, SignalSession)>, jid: &str) -> (r: Option<usize>)
    ensures
        match r {
            Some(j) => j < sessions@.len() && sessions@[j as int].0@ == jid@ && forall|i: int|
                j < i < sessions@.len() ==> sessions@[i].0@ != jid@,
            None => forall|i: int| 0 <= i < sessions@.len() ==> sessions@[i].0@ != jid@,
        },
{
    let mut i: usize = sessions.len();
    while i > 0
        invariant
            i <= sessions@.len(),
            forall|k: int| i <= k < sessions@.len() ==> sessions@[k].0@ != jid@,
        decreases i,
    {
        i -= 1;
        if bytes_eq(sessions[i].0.as_str().as_bytes(), jid.as_bytes()) {
            proof {
                vstd::utf8::encode_utf8_decode_utf8(sessions@[i as int].0@);
                vstd::utf8::encode_utf8_decode_utf8(jid@);
            }
            return Some(i);
        }
    }
    None
}

impl InMemorySignalStore {
    /// Creates a new store with a random identity key.
    pub fn new() -> (r: Self)
        ensures
            r.pre_keys_view() == Map::<u32, [u8; 32]>::empty(),
            r.signed_pre_keys_view() == Map::<u32, [u8; 32]>::empty(),
            r.sessions_view() == Map::<Seq<char>, SignalSession>::empty(),
    {
        let identity_key = random_32();
        Self::from_identity_key(identity_key)
    }

    /// Creates a store from a deterministic identity key.
    pub fn from_identity_key(identity_key: [u8; 32]) -> (r: Self)
        ensures
            r.identity_key_view() == identity_key,
            r.pre_keys_view() == Map::<u32, [u8; 32]>::empty(),
            r.signed_pre_keys_view() == Map::<u32, [u8; 32]>::empty(),
            r.sessions_view() == Map::<Seq<char>, SignalSession>::empty(),
    {
        InMemorySignalStore {
            identity_key,
            pre_keys: HashMap::new(),
            signed_pre_keys: HashMap::new(),
            sessions: Vec::new(),
        }
    }
}

impl IdentityKeyStore for InMemorySignalStore {
    closed spec fn identity_key_view(&self) -> [u8; 32] {
        self.identity_key
    }

    /// The key is held in memory: always readable.
    open spec fn identity_available(&self) -> bool {
        true
    }

    fn local_identity_key(&self) -> (r: Result<[u8; 32], SignalError>)
        ensures
            r == Ok::<[u8; 32], SignalError>(self.identity_key_view()),
    {
        Ok(self.identity_key)
    }
}

impl PreKeyStore for InMemorySignalStore {
    closed spec fn pre_keys_view(&self) -> Map<u32, [u8; 32]> {
        self.pre_keys@
    }

    /// Held in memory: every request is answered.
    open spec fn pre_keys_available(&self) -> bool {
        true
    }

    fn load_pre_key(&self, key_id: u32) -> (r: Result<Option<[u8; 32]>, SignalError>)
        ensures
            r == Ok::<Option<[u8; 32]>, SignalError>(map_get(self.pre_keys_view(), key_id)),
    {
        match self.pre_keys.get(&key_id) {
            Some(k) => Ok(Some(*k)),
            None => Ok(None),
        }
    }

    fn store_pre_key(&mut self, key_id: u32, key: [u8; 32]) -> (r: Result<(), SignalError>)
        ensures
            r is Ok,
            final(self).pre_keys_view() == old(self).pre_keys_view().insert(key_id, key),
    {
        self.pre_keys.insert(key_id, key);
        Ok(())
    }
}

impl SignedPreKeyStore for InMemorySignalStore {
    closed spec fn signed_pre_keys_view(&self) -> Map<u32, [u8; 32]> {
        self.signed_pre_keys@
    }

    /// Held in memory: every request is answered.
    open spec fn signed_pre_keys_available(&self) -> bool {
        true
    }

    fn load_signed_pre_key(&self, key_id: u32) -> (r: Result<Option<[u8; 32]>, SignalError>)
        ensures
            r == Ok::<Option<[u8; 32]>, SignalError>(map_get(self.signed_pre_keys_view(), key_id)),
    {
        match self.signed_pre_keys.get(&key_id) {
            Some(k) => Ok(Some(*k)),
            None => Ok(None),
        }
    }

    fn store_signed_pre_key(&mut self, key_id: u32, key: [u8; 32]) -> (r: Result<(), SignalError>)
        ensures
            r is Ok,
            final(self).signed_pre_keys_view() == old(self).signed_pre_keys_view().insert(key_id, key),
    {
        self.signed_pre_keys.insert(key_id, key);
        Ok(())
    }
}

impl SessionStore for InMemorySignalStore {
    closed spec fn sessions_view(&self) -> Map<Seq<char>, SignalSession> {
        sessions_map(self.sessions@)
    }

    /// Held in memory: every request is answered.
    open spec fn sessions_available(&self) -> bool {
        true
    }

    fn load_session(&self, jid: &str) -> (r: Result<Option<SignalSession>, SignalError>)
        ensures
            r == Ok::<Option<SignalSession>, SignalError>(map_get(self.sessions_view(), jid@)),
    {
        match last_session_index(&self.sessions, jid) {
            Some(j) => {
                proof {
                    lemma_sessions_map_last(self.sessions@, jid@, j as int);
                }
                Ok(Some(self.sessions[j].1))
            },
            None => {
                proof {
                    lemma_sessions_map_last(self.sessions@, jid@, -1);
                }
                Ok(None)
            },
        }
    }

    fn store_session(&mut self, jid: &str, session: SignalSession) -> (r: Result<(), SignalError>)
        ensures
            r is Ok,
            final(self).sessions_view() == old(self).sessions_view().insert(jid@, session),
    {
        let key = jid.to_owned();
        match last_session_index(&self.sessions, jid) {
            Some(j) => {
                proof {
                    lemma_sessions_map_update(self.sessions@, j as int, (key, session));
                }
                self.sessions.set(j, (key, session));
            },
            None => {
                self.sessions.push((key, session));
                assert(self.sessions@.drop_last() == old(self).sessions@);
            },
        }
        Ok(())
    }
}

impl SignalStore for InMemorySignalStore {}

} // verus!
