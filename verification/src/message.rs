use vstd::prelude::*;

use crate::auth::AuthState;
use crate::binary_node::{attrs_distinct, attrs_map, BinaryNode, ContentView, NodeContent};
use crate::crypto::random_4;
use crate::error::MessageError;
use crate::text::{
    ascii_chars, ascii_string, decimal_bytes, decimal_chars, decimal_string, push_all, push_decimal, str_eq,
};

verus! {

/// Supported operations for `/message/:operation/:instance_name`.
#[derive(Debug, Clone, Copy, PartialEq, Eq, Structural)]
pub enum MessageOperation {
    SendTemplate,
    SendText,
    SendMedia,
    SendPtv,
    SendWhatsAppAudio,
    SendStatus,
    SendSticker,
    SendLocation,
    SendContact,
    SendReaction,
    SendPoll,
    SendList,
    SendButtons,
}

/// Canonical route name of an operation.
pub open spec fn operation_name(op: MessageOperation) -> Seq<char> {
    match op {
        MessageOperation::SendTemplate => "sendTemplate"@,
        MessageOperation::SendText => "sendText"@,
        MessageOperation::SendMedia => "sendMedia"@,
        MessageOperation::SendPtv => "sendPtv"@,
        MessageOperation::SendWhatsAppAudio => "sendWhatsAppAudio"@,
        MessageOperation::SendStatus => "sendStatus"@,
        MessageOperation::SendSticker => "sendSticker"@,
        MessageOperation::SendLocation => "sendLocation"@,
        MessageOperation::SendContact => "sendContact"@,
        MessageOperation::SendReaction => "sendReaction"@,
        MessageOperation::SendPoll => "sendPoll"@,
        MessageOperation::SendList => "sendList"@,
        MessageOperation::SendButtons => "sendButtons"@,
    }
}

/// The operation whose route name is `s`, if any.
pub open spec fn operation_named(s: Seq<char>) -> Option<MessageOperation> {
    if s == operation_name(MessageOperation::SendTemplate) {
        Some(MessageOperation::SendTemplate)
    } else if s == operation_name(MessageOperation::SendText) {
        Some(MessageOperation::SendText)
    } else if s == operation_name(MessageOperation::SendMedia) {
        Some(MessageOperation::SendMedia)
    } else if s == operation_name(MessageOperation::SendPtv) {
        Some(MessageOperation::SendPtv)
    } else if s == operation_name(MessageOperation::SendWhatsAppAudio) {
        Some(MessageOperation::SendWhatsAppAudio)
    } else if s == operation_name(MessageOperation::SendStatus) {
        Some(MessageOperation::SendStatus)
    } else if s == operation_name(MessageOperation::SendSticker) {
        Some(MessageOperation::SendSticker)
    } else if s == operation_name(MessageOperation::SendLocation) {
        Some(MessageOperation::SendLocation)
    } else if s == operation_name(MessageOperation::SendContact) {
        Some(MessageOperation::SendContact)
    } else if s == operation_name(MessageOperation::SendReaction) {
        Some(MessageOperation::SendReaction)
    } else if s == operation_name(MessageOperation::SendPoll) {
        Some(MessageOperation::SendPoll)
    } else if s == operation_name(MessageOperation::SendList) {
        Some(MessageOperation::SendList)
    } else if s == operation_name(MessageOperation::SendButtons) {
        Some(MessageOperation::SendButtons)
    } else {
        None
    }
}

impl MessageOperation {
    /// Parses an operation from route path segment.
    pub fn parse(raw: &str) -> (r: Result<Self, MessageError>)
        ensures
            match r {
                Ok(op) => operation_named(raw@) == Some(op),
                Err(e) => operation_named(raw@) is None && (e matches MessageError::InvalidOperation(s) && s@
                    == raw@),
            },
    {
        if str_eq(raw, "sendTemplate") {
            Ok(MessageOperation::SendTemplate)
        } else if str_eq(raw, "sendText") {
            Ok(MessageOperation::SendText)
        } else if str_eq(raw, "sendMedia") {
            Ok(MessageOperation::SendMedia)
        } else if str_eq(raw, "sendPtv") {
            Ok(MessageOperation::SendPtv)
        } else if str_eq(raw, "sendWhatsAppAudio") {
            Ok(MessageOperation::SendWhatsAppAudio)
        } else if str_eq(raw, "sendStatus") {
            Ok(MessageOperation::SendStatus)
        } else if str_eq(raw, "sendSticker") {
            Ok(MessageOperation::SendSticker)
        } else if str_eq(raw, "sendLocation") {
            Ok(MessageOperation::SendLocation)
        } else if str_eq(raw, "sendContact") {
            Ok(MessageOperation::SendContact)
        } else if str_eq(raw, "sendReaction") {
            Ok(MessageOperation::SendReaction)
        } else if str_eq(raw, "sendPoll") {
            Ok(MessageOperation::SendPoll)
        } else if str_eq(raw, "sendList") {
            Ok(MessageOperation::SendList)
        } else if str_eq(raw, "sendButtons") {
            Ok(MessageOperation::SendButtons)
        } else {
            Err(MessageError::InvalidOperation(raw.to_owned()))
        }
    }

    /// Returns canonical operation name.
    pub fn as_str(&self) -> (r: &'static str)
        ensures
            r@ == operation_name(*self),
    {
        match self {
            MessageOperation::SendTemplate => "sendTemplate",
            MessageOperation::SendText => "sendText",
            MessageOperation::SendMedia => "sendMedia",
            MessageOperation::SendPtv => "sendPtv",
            MessageOperation::SendWhatsAppAudio => "sendWhatsAppAudio",
            MessageOperation::SendStatus => "sendStatus",
            MessageOperation::SendSticker => "sendSticker",
            MessageOperation::SendLocation => "sendLocation",
            MessageOperation::SendContact => "sendContact",
            MessageOperation::SendReaction => "sendReaction",
            MessageOperation::SendPoll => "sendPoll",
            MessageOperation::SendList => "sendList",
            MessageOperation::SendButtons => "sendButtons",
        }
    }
}

/// Parsing the canonical name of an operation gives the operation back: route
/// names are pairwise distinct.
pub proof fn law_operation_name_roundtrip(op: MessageOperation)
    ensures
        operation_named(operation_name(op)) == Some(op),
{
    reveal_strlit("sendTemplate");
    reveal_strlit("sendText");
    reveal_strlit("sendMedia");
    reveal_strlit("sendPtv");
    reveal_strlit("sendWhatsAppAudio");
    reveal_strlit("sendStatus");
    reveal_strlit("sendSticker");
    reveal_strlit("sendLocation");
    reveal_strlit("sendContact");
    reveal_strlit("sendReaction");
    reveal_strlit("sendPoll");
    reveal_strlit("sendList");
    reveal_strlit("sendButtons");
    assert("sendTemplate"@.len() == 12 && "sendTemplate"@[4] == 'T');
    assert("sendText"@.len() == 8 && "sendText"@[4] == 'T');
    assert("sendMedia"@.len() == 9 && "sendMedia"@[4] == 'M');
    assert("sendPtv"@.len() == 7 && "sendPtv"@[4] == 'P');
    assert("sendWhatsAppAudio"@.len() == 17 && "sendWhatsAppAudio"@[4] == 'W');
    assert("sendStatus"@.len() == 10 && "sendStatus"@[4] == 'S');
    assert("sendSticker"@.len() == 11 && "sendSticker"@[4] == 'S');
    assert("sendLocation"@.len() == 12 && "sendLocation"@[4] == 'L');
    assert("sendContact"@.len() == 11 && "sendContact"@[4] == 'C');
    assert("sendReaction"@.len() == 12 && "sendReaction"@[4] == 'R');
    assert("sendPoll"@.len() == 8 && "sendPoll"@[4] == 'P');
    assert("sendList"@.len() == 8 && "sendList"@[4] == 'L');
    assert("sendButtons"@.len() == 11 && "sendButtons"@[4] == 'B');
}

/// Outbound message received by the message API handler.
#[derive(Debug, PartialEq, Eq)]
pub struct OutgoingMessage {
    /// Recipient JID.
    pub to: String,
    /// Typed content payload.
    pub content: MessageContent,
}

/// Supported outbound payload variants.
#[derive(Debug, PartialEq, Eq)]
pub enum MessageContent {
    Text { text: String },
    Image { data_base64: String, caption: Option<String> },
    Video { data_base64: String, caption: Option<String> },
    Audio { data_base64: String },
    Sticker { data_base64: String },
    Location { latitude: String, longitude: String, name: Option<String> },
    Contact { vcard: String },
    Reaction { message_id: String, emoji: String },
    Poll { question: String, options: Vec<String> },
    List { title: String, items: Vec<String> },
    Buttons { text: String, buttons: Vec<String> },
    Template { name: String, language: Option<String> },
    Status { text: String },
}

/// Whether a content variant may be sent with an operation.
pub open spec fn content_fits(op: MessageOperation, content: MessageContent) -> bool {
    match op {
        MessageOperation::SendText => content is Text,
        MessageOperation::SendMedia => content is Image || content is Video,
        MessageOperation::SendPtv => content is Video,
        MessageOperation::SendWhatsAppAudio => content is Audio,
        MessageOperation::SendSticker => content is Sticker,
        MessageOperation::SendLocation => content is Location,
        MessageOperation::SendContact => content is Contact,
        MessageOperation::SendReaction => content is Reaction,
        MessageOperation::SendPoll => content is Poll,
        MessageOperation::SendList => content is List,
        MessageOperation::SendButtons => content is Buttons,
        MessageOperation::SendTemplate => content is Template,
        MessageOperation::SendStatus => content is Status,
    }
}

/// Validates that operation and payload type are compatible.
pub fn validate_operation(operation: MessageOperation, payload: &OutgoingMessage) -> (r: Result<(), MessageError>)
    ensures
        r is Ok <==> content_fits(operation, payload.content),
        r matches Err(e) ==> (e matches MessageError::InvalidContentForOperation { operation: s } && s@
            == operation_name(operation)),
{
    let content_ok = match operation {
        MessageOperation::SendText => matches!(&payload.content, MessageContent::Text { .. }),
        MessageOperation::SendMedia => matches!(&payload.content, MessageContent::Image { .. })
            || matches!(&payload.content, MessageContent::Video { .. }),
        MessageOperation::SendPtv => matches!(&payload.content, MessageContent::Video { .. }),
        MessageOperation::SendWhatsAppAudio => matches!(&payload.content, MessageContent::Audio { .. }),
        MessageOperation::SendSticker => matches!(&payload.content, MessageContent::Sticker { .. }),
        MessageOperation::SendLocation => matches!(&payload.content, MessageContent::Location { .. }),
        MessageOperation::SendContact => matches!(&payload.content, MessageContent::Contact { .. }),
        MessageOperation::SendReaction => matches!(&payload.content, MessageContent::Reaction { .. }),
        MessageOperation::SendPoll => matches!(&payload.content, MessageContent::Poll { .. }),
        MessageOperation::SendList => matches!(&payload.content, MessageContent::List { .. }),
        MessageOperation::SendButtons => matches!(&payload.content, MessageContent::Buttons { .. }),
        MessageOperation::SendTemplate => matches!(&payload.content, MessageContent::Template { .. }),
        MessageOperation::SendStatus => matches!(&payload.content, MessageContent::Status { .. }),
    };
    if content_ok {
        Ok(())
    } else {
        Err(MessageError::InvalidContentForOperation { operation: operation.as_str().to_owned() })
    }
}

/// Attributes of an outbound message node.
pub open spec fn message_attrs(
    message_id: Seq<char>,
    op: MessageOperation,
    to: Seq<char>,
    registration_id: Option<u32>,
) -> Map<Seq<char>, Seq<char>> {
    let base = Map::empty().insert("to"@, to).insert("op"@, operation_name(op)).insert("id"@, message_id);
    match registration_id {
        Some(id) => base.insert("registrationId"@, decimal_chars(id as nat)),
        None => base,
    }
}

/// Builds an outbound `message` node for a message operation: its attributes
/// name the recipient, the operation, the message id and, with auth state, the
/// registration id; its body is the serialized content (`content_json`).
pub fn build_message_node(
    message_id: &str,
    operation: MessageOperation,
    message: &OutgoingMessage,
    auth: Option<&AuthState>,
    content_json: Vec<u8>,
) -> (r: BinaryNode)
    ensures
        r.wf(),
        r@.tag == "message"@,
        r@.attrs == message_attrs(
            message_id@,
            operation,
            message.to@,
            match auth {
                Some(a) => Some(a.identity.registration_id),
                None => None,
            },
        ),
        r@.content == ContentView::Bytes(content_json@),
{
    proof {
        reveal_strlit("to");
        reveal_strlit("op");
        reveal_strlit("id");
        reveal_strlit("registrationId");
    }
    let mut attrs: Vec<(String, String)> = Vec::new();
    attrs.push(("to".to_owned(), message.to.clone()));
    attrs.push(("op".to_owned(), operation.as_str().to_owned()));
    attrs.push(("id".to_owned(), message_id.to_owned()));
    let ghost base = attrs@;
    proof {
        assert(base.drop_last().drop_last().drop_last() =~= Seq::<(String, String)>::empty());
        reveal_with_fuel(attrs_map, 4);
        assert(attrs_map(base) =~= Map::empty().insert("to"@, message.to@).insert("op"@, operation_name(operation)).insert(
            "id"@,
            message_id@,
        ));
    }
    match auth {
        Some(a) => {
            attrs.push(("registrationId".to_owned(), decimal_string(a.identity.registration_id as u128)));
            assert(attrs@.drop_last() == base);
        },
        None => {},
    }
    let node = BinaryNode { tag: "message".to_owned(), attrs, content: NodeContent::Bytes(content_json) };
    proof {
        assert("to"@.len() == 2 && "to"@[0] == 't');
        assert("op"@.len() == 2 && "op"@[0] == 'o');
        assert("id"@.len() == 2 && "id"@[0] == 'i');
        assert("registrationId"@.len() == 14);
        assert(node.attrs@[0].0@ == "to"@);
        assert(node.attrs@[1].0@ == "op"@);
        assert(node.attrs@[2].0@ == "id"@);
        assert(node.attrs@.len() > 3 ==> node.attrs@[3].0@ == "registrationId"@);
        assert(attrs_distinct(node.attrs@));
        crate::binary_node::lemma_node_view_unfold(&node);
    }
    node
}

/// `{n:0w}`: the decimal digits of `n`, left-padded with zeros to `w` digits.
pub open spec fn zero_padded_decimal(n: nat, w: nat) -> Seq<u8> {
    let d = decimal_bytes(n);
    if d.len() >= w {
        d
    } else {
        Seq::new((w - d.len()) as nat, |i: int| 48u8) + d
    }
}

/// Lower-case hexadecimal digit of a nibble.
pub open spec fn lower_hex_digit(v: u8) -> u8 {
    if v < 10 {
        (48 + v) as u8
    } else {
        (87 + v) as u8
    }
}

/// Two lower-case hexadecimal digits per byte, most significant nibble first.
pub open spec fn lower_hex(b: Seq<u8>) -> Seq<u8> {
    Seq::new(2 * b.len(), |i: int| lower_hex_digit(if i % 2 == 0 { b[i / 2] / 16 } else { b[i / 2] % 16 }))
}

/// Appends the lower-case hexadecimal form of `bytes`.
pub fn push_lower_hex(out: &mut Vec<u8>, bytes: &[u8])
    ensures
        final(out)@ == old(out)@ + lower_hex(bytes@),
{
    let ghost start = out@;
    let mut i: usize = 0;
    while i < bytes.len()
        invariant
            i <= bytes@.len(),
            out@ == start + lower_hex(bytes@.take(i as int)),
        decreases bytes@.len() - i,
    {
        let b = bytes[i];
        let hi = b / 16;
        let lo = b % 16;
        out.push(if hi < 10 { 48 + hi } else { 87 + hi });
        out.push(if lo < 10 { 48 + lo } else { 87 + lo });
        i += 1;
        assert(out@ =~= start + lower_hex(bytes@.take(i as int)));
    }
    assert(bytes@.take(i as int) == bytes@);
}

/// Message id text: `msg-`, the milliseconds as at least 13 decimal digits,
/// `-`, and the entropy as 8 lower-case hexadecimal digits.
pub open spec fn message_id_spec(millis: nat, entropy: Seq<u8>) -> Seq<char> {
    ascii_chars(seq![109u8, 115u8, 103u8, 45u8] + zero_padded_decimal(millis, 13) + seq![45u8] + lower_hex(entropy))
}

/// Formats a message id from a time in milliseconds and four random bytes.
pub fn format_message_id(millis: u128, entropy: [u8; 4]) -> (r: String)
    ensures
        r@ == message_id_spec(millis as nat, entropy@),
{
    let mut digits: Vec<u8> = Vec::new();
    push_decimal(&mut digits, millis);
    let mut out: Vec<u8> = Vec::new();
    out.push(109);
    out.push(115);
    out.push(103);
    out.push(45);
    let ghost prefix = out@;
    let mut pad: usize = digits.len();
    while pad < 13
        invariant
            digits@ == decimal_bytes(millis as nat),
            digits@.len() <= pad,
            pad <= 13 || pad == digits@.len(),
            out@ == prefix + Seq::new((pad - digits@.len()) as nat, |i: int| 48u8),
        decreases 13 - pad,
    {
        out.push(48);
        pad += 1;
        assert(out@ =~= prefix + Seq::new((pad - digits@.len()) as nat, |i: int| 48u8));
    }
    push_all(&mut out, digits.as_slice());
    proof {
        if digits@.len() >= 13 {
            assert(out@ =~= prefix + zero_padded_decimal(millis as nat, 13));
        } else {
            assert(out@ =~= prefix + zero_padded_decimal(millis as nat, 13));
        }
    }
    out.push(45);
    push_lower_hex(&mut out, entropy.as_slice());
    proof {
        assert(out@ =~= seq![109u8, 115u8, 103u8, 45u8] + zero_padded_decimal(millis as nat, 13) + seq![45u8] + lower_hex(entropy@));
        crate::text::lemma_decimal_bytes_ascii(millis as nat);
        assert forall|i: int| 0 <= i < out@.len() implies out@[i] < 128 by {
            let pl = 4 + zero_padded_decimal(millis as nat, 13).len();
            if i >= pl + 1 {
                let j = i - pl - 1;
                assert(out@[i] == lower_hex(entropy@)[j]);
            } else if i >= 4 && i < pl {
                let d = decimal_bytes(millis as nat);
                if d.len() < 13 && i - 4 >= 13 - d.len() {
                    assert(out@[i] == d[i - 4 - (13 - d.len())]);
                } else if d.len() >= 13 {
                    assert(out@[i] == d[i - 4]);
                }
            }
        }
    }
    ascii_string(out)
}

/// Current time in milliseconds since the Unix epoch (0 when the clock is before it).
/// Nothing is stated of the value.
#[verifier::external_body]
fn unix_time_millis() -> u128 {
    std::time::SystemTime::now()
        .duration_since(std::time::UNIX_EPOCH)
        .map(|duration| duration.as_millis())
        .unwrap_or_default()
}

/// Generates a synthetic message id from the clock and four random bytes.
pub fn generate_message_id() -> (r: String)
    ensures
        exists|millis: nat, entropy: Seq<u8>| entropy.len() == 4 && r@ == #[trigger] message_id_spec(millis, entropy),
{
    let millis = unix_time_millis();
    let entropy = random_4();
    let r = format_message_id(millis, entropy);
    assert(entropy@.len() == 4 && r@ == message_id_spec(millis as nat, entropy@));
    r
}

/// Every kind of content has a route that accepts it.
pub proof fn law_every_content_has_a_route(content: MessageContent)
    ensures
        exists|op: MessageOperation| #[trigger] content_fits(op, content),
{
    let op = match content {
        MessageContent::Text { .. } => MessageOperation::SendText,
        MessageContent::Image { .. } => MessageOperation::SendMedia,
        MessageContent::Video { .. } => MessageOperation::SendPtv,
        MessageContent::Audio { .. } => MessageOperation::SendWhatsAppAudio,
        MessageContent::Sticker { .. } => MessageOperation::SendSticker,
        MessageContent::Location { .. } => MessageOperation::SendLocation,
        MessageContent::Contact { .. } => MessageOperation::SendContact,
        MessageContent::Reaction { .. } => MessageOperation::SendReaction,
        MessageContent::Poll { .. } => MessageOperation::SendPoll,
        MessageContent::List { .. } => MessageOperation::SendList,
        MessageContent::Buttons { .. } => MessageOperation::SendButtons,
        MessageContent::Template { .. } => MessageOperation::SendTemplate,
        MessageContent::Status { .. } => MessageOperation::SendStatus,
    };
    assert(content_fits(op, content));
}

/// The routes that accept each kind of content: its own route (`sendText`
/// for text, `sendWhatsAppAudio` for audio, and so on), with video also
/// accepted by `sendMedia` and images by `sendMedia` alone.
pub proof fn law_routes_of_content(op: MessageOperation, content: MessageContent)
    ensures
        content_fits(op, content) <==> match content {
            MessageContent::Text { .. } => op == MessageOperation::SendText,
            MessageContent::Image { .. } => op == MessageOperation::SendMedia,
            MessageContent::Video { .. } => op == MessageOperation::SendMedia || op == MessageOperation::SendPtv,
            MessageContent::Audio { .. } => op == MessageOperation::SendWhatsAppAudio,
            MessageContent::Sticker { .. } => op == MessageOperation::SendSticker,
            MessageContent::Location { .. } => op == MessageOperation::SendLocation,
            MessageContent::Contact { .. } => op == MessageOperation::SendContact,
            MessageContent::Reaction { .. } => op == MessageOperation::SendReaction,
            MessageContent::Poll { .. } => op == MessageOperation::SendPoll,
            MessageContent::List { .. } => op == MessageOperation::SendList,
            MessageContent::Buttons { .. } => op == MessageOperation::SendButtons,
            MessageContent::Template { .. } => op == MessageOperation::SendTemplate,
            MessageContent::Status { .. } => op == MessageOperation::SendStatus,
        },
{
}

} // verus!
