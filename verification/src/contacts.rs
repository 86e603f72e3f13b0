use vstd::prelude::*;

use crate::text::{decimal_chars, lemma_parse_decimal, lemma_split_once_at, lemma_split_once_none};
use crate::wabinary::{jid_decode, jid_decode_spec, jid_encode, jid_encode_spec};

verus! {

/// Server of phone-number accounts.
pub open spec fn default_user_server() -> Seq<char> {
    "s.whatsapp.net"@
}

/// Server of groups.
pub open spec fn group_server() -> Seq<char> {
    "g.us"@
}

/// A WhatsApp address: user, server, agent and device.
#[derive(Debug, Clone, PartialEq, Eq)]
pub struct Jid {
    pub user: String,
    pub server: String,
    pub agent: u8,
    pub device: u16,
}

/// Why a text is not a JID.
#[derive(Debug, Clone, Copy, PartialEq, Eq, Structural)]
pub enum JidParseError {
    /// The text has no `@`, or its device is not a number.
    Malformed,
}

/// Whether `r` is the result of parsing `text` as `user[_agent][:device]@server`:
/// the decoded parts (device 0 when absent), or `Malformed`.
pub open spec fn jid_parsed(text: Seq<char>, r: Result<Jid, JidParseError>) -> bool {
    match jid_decode_spec(text) {
        Some(j) => r matches Ok(x) && x.user@ == j.user && x.server@ == j.server && x.agent == j.domain_type
            && x.device == match j.device {
            Some(d) => d,
            None => 0,
        },
        None => r == Err::<Jid, JidParseError>(JidParseError::Malformed),
    }
}

impl Jid {
    /// Parses `user[_agent][:device]@server`.
    pub fn parse_str(text: &str) -> (r: Result<Jid, JidParseError>)
        ensures
            jid_parsed(text@, r),
    {
        match jid_decode(text) {
            Some(d) => Ok(
                Jid {
                    user: d.user,
                    server: d.server,
                    agent: d.domain_type,
                    device: match d.device {
                        Some(x) => x,
                        None => 0,
                    },
                },
            ),
            None => Err(JidParseError::Malformed),
        }
    }

    /// The JID of a phone number.
    pub fn pn(user: &str) -> (r: Jid)
        ensures
            r.user@ == user@,
            r.server@ == default_user_server(),
            r.agent == 0,
            r.device == 0,
    {
        Jid { user: user.to_owned(), server: "s.whatsapp.net".to_owned(), agent: 0, device: 0 }
    }

    /// The JID of a group.
    pub fn group(id: &str) -> (r: Jid)
        ensures
            r.user@ == id@,
            r.server@ == group_server(),
            r.agent == 0,
            r.device == 0,
    {
        Jid { user: id.to_owned(), server: "g.us".to_owned(), agent: 0, device: 0 }
    }

    /// `user[:device]@server` (the device only when not zero).
    pub fn to_jid_string(&self) -> (r: String)
        ensures
            r@ == jid_encode_spec(
                self.user@,
                self.server@,
                if self.device > 0 {
                    Some(self.device)
                } else {
                    None
                },
            ),
    {
        jid_encode(
            self.user.as_str(),
            self.server.as_str(),
            if self.device > 0 {
                Some(self.device)
            } else {
                None
            },
        )
    }
}

impl std::str::FromStr for Jid {
    type Err = JidParseError;

    fn from_str(s: &str) -> (r: Result<Jid, JidParseError>)
        ensures
            jid_parsed(s@, r),
    {
        Jid::parse_str(s)
    }
}

/// What is known of a contact.
#[derive(Debug, Clone, PartialEq, Eq)]
pub struct ContactInfo {
    pub jid: Jid,
    pub lid: Option<Jid>,
    pub is_registered: bool,
    pub is_business: bool,
    pub status: Option<String>,
    pub picture_id: Option<u64>,
}

/// A contact's profile picture.
#[derive(Debug, Clone, PartialEq, Eq)]
pub struct ProfilePicture {
    pub id: String,
    pub url: String,
    pub direct_path: Option<String>,
}

/// Whether a number is registered on WhatsApp.
#[derive(Debug, Clone, PartialEq, Eq)]
pub struct IsOnWhatsAppResult {
    pub jid: Jid,
    pub is_registered: bool,
}

/// How a mapping between a LID and a phone number was learned.
#[derive(Debug, Clone, Copy, PartialEq, Eq, Structural)]
pub enum LearningSource {
    Usync,
    PeerPnMessage,
    PeerLidMessage,
    RecipientLatestLid,
    MigrationSyncLatest,
    MigrationSyncOld,
    BlocklistActive,
    BlocklistInactive,
    Pairing,
    Other,
}

/// Stored name of a learning source.
pub open spec fn learning_source_name(s: LearningSource) -> Seq<char> {
    match s {
        LearningSource::Usync => "usync"@,
        LearningSource::PeerPnMessage => "peer_pn_message"@,
        LearningSource::PeerLidMessage => "peer_lid_message"@,
        LearningSource::RecipientLatestLid => "recipient_latest_lid"@,
        LearningSource::MigrationSyncLatest => "migration_sync_latest"@,
        LearningSource::MigrationSyncOld => "migration_sync_old"@,
        LearningSource::BlocklistActive => "blocklist_active"@,
        LearningSource::BlocklistInactive => "blocklist_inactive"@,
        LearningSource::Pairing => "pairing"@,
        LearningSource::Other => "other"@,
    }
}

/// Learning source of a stored name; unknown names are `Other`.
pub open spec fn learning_source_named(s: Seq<char>) -> LearningSource {
    if s == "usync"@ {
        LearningSource::Usync
    } else if s == "peer_pn_message"@ {
        LearningSource::PeerPnMessage
    } else if s == "peer_lid_message"@ {
        LearningSource::PeerLidMessage
    } else if s == "recipient_latest_lid"@ {
        LearningSource::RecipientLatestLid
    } else if s == "migration_sync_latest"@ {
        LearningSource::MigrationSyncLatest
    } else if s == "migration_sync_old"@ {
        LearningSource::MigrationSyncOld
    } else if s == "blocklist_active"@ {
        LearningSource::BlocklistActive
    } else if s == "blocklist_inactive"@ {
        LearningSource::BlocklistInactive
    } else if s == "pairing"@ {
        LearningSource::Pairing
    } else {
        LearningSource::Other
    }
}

impl LearningSource {
    /// Stored name of the source.
    pub fn as_str(&self) -> (r: &'static str)
        ensures
            r@ == learning_source_name(*self),
    {
        match self {
            LearningSource::Usync => "usync",
            LearningSource::PeerPnMessage => "peer_pn_message",
            LearningSource::PeerLidMessage => "peer_lid_message",
            LearningSource::RecipientLatestLid => "recipient_latest_lid",
            LearningSource::MigrationSyncLatest => "migration_sync_latest",
            LearningSource::MigrationSyncOld => "migration_sync_old",
            LearningSource::BlocklistActive => "blocklist_active",
            LearningSource::BlocklistInactive => "blocklist_inactive",
            LearningSource::Pairing => "pairing",
            LearningSource::Other => "other",
        }
    }

    /// Source of a stored name; unknown names are `Other`.
    pub fn parse(s: &str) -> (r: LearningSource)
        ensures
            r == learning_source_named(s@),
    {
        if crate::text::str_eq(s, "usync") {
            LearningSource::Usync
        } else if crate::text::str_eq(s, "peer_pn_message") {
            LearningSource::PeerPnMessage
        } else if crate::text::str_eq(s, "peer_lid_message") {
            LearningSource::PeerLidMessage
        } else if crate::text::str_eq(s, "recipient_latest_lid") {
            LearningSource::RecipientLatestLid
        } else if crate::text::str_eq(s, "migration_sync_latest") {
            LearningSource::MigrationSyncLatest
        } else if crate::text::str_eq(s, "migration_sync_old") {
            LearningSource::MigrationSyncOld
        } else if crate::text::str_eq(s, "blocklist_active") {
            LearningSource::BlocklistActive
        } else if crate::text::str_eq(s, "blocklist_inactive") {
            LearningSource::BlocklistInactive
        } else if crate::text::str_eq(s, "pairing") {
            LearningSource::Pairing
        } else {
            LearningSource::Other
        }
    }
}

/// Parsing the stored name of a learning source gives the source back.
pub proof fn law_learning_source_roundtrip(s: LearningSource)
    ensures
        learning_source_named(learning_source_name(s)) == s,
{
    reveal_strlit("usync");
    reveal_strlit("peer_pn_message");
    reveal_strlit("peer_lid_message");
    reveal_strlit("recipient_latest_lid");
    reveal_strlit("migration_sync_latest");
    reveal_strlit("migration_sync_old");
    reveal_strlit("blocklist_active");
    reveal_strlit("blocklist_inactive");
    reveal_strlit("pairing");
    reveal_strlit("other");
    assert("usync"@.len() == 5);
    assert("pairing"@.len() == 7);
    assert("other"@.len() == 5 && "other"@[0] == 'o' && "usync"@[0] == 'u');
    assert("peer_pn_message"@.len() == 15);
    assert("peer_lid_message"@.len() == 16);
    assert("recipient_latest_lid"@.len() == 20);
    assert("migration_sync_latest"@.len() == 21);
    assert("migration_sync_old"@.len() == 18);
    assert("blocklist_active"@.len() == 16 && "blocklist_active"@[0] == 'b' && "peer_lid_message"@[0] == 'p');
    assert("blocklist_inactive"@.len() == 18 && "blocklist_inactive"@[0] == 'b' && "migration_sync_old"@[0] == 'm');
}

/// Reading back the text of a JID gives its user, server and device, when
/// the user holds none of `@`, `:` and `_`.
pub proof fn law_jid_text_roundtrip(j: Jid)
    requires
        forall|i: int| 0 <= i < j.user@.len() ==> j.user@[i] != '@' && j.user@[i] != ':' && j.user@[i] != '_',
    ensures
        jid_decode_spec(
            jid_encode_spec(
                j.user@,
                j.server@,
                if j.device > 0 {
                    Some(j.device)
                } else {
                    None
                },
            ),
        ) matches Some(d) && d.user == j.user@ && d.server == j.server@ && (match d.device {
            Some(x) => x,
            None => 0,
        }) == j.device,
{
    let user = j.user@;
    let server = j.server@;
    lemma_split_once_none(user, '_');
    if j.device > 0 {
        let digits = decimal_chars(j.device as nat);
        lemma_parse_decimal(j.device as nat, 65535);
        crate::text::lemma_decimal_bytes_ascii(j.device as nat);
        let up = user + seq![':'] + digits;
        assert forall|i: int| 0 <= i < up.len() implies up[i] != '@' by {
            if i > user.len() {
                assert(up[i] == digits[i - user.len() - 1]);
                assert(digits[i - user.len() - 1] == crate::text::decimal_bytes(j.device as nat)[i - user.len() - 1] as char);
            }
        }
        assert(user + seq![':'] + digits + seq!['@'] + server == up + seq!['@'] + server);
        lemma_split_once_at(up, '@', server);
        lemma_split_once_at(user, ':', digits);
        assert((j.device as nat) as u16 == j.device);
    } else {
        assert forall|i: int| 0 <= i < user.len() implies user[i] != '@' by {}
        lemma_split_once_at(user, '@', server);
        lemma_split_once_none(user, ':');
    }
}

} // verus!
