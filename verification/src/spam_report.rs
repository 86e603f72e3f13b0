use vstd::prelude::*;

use crate::binary_node::{attrs_distinct, attrs_map, content_view, insert_attr, BinaryNode, ContentView, NodeContent, NodeView};
use crate::contacts::Jid;
use crate::text::{decimal_chars, decimal_string, str_eq};
use crate::wabinary::{jid_encode_spec, nodes_view};

verus! {

/// Where in the app a spam report was made.
#[derive(Debug, Clone, Copy, PartialEq, Eq, Structural)]
pub enum SpamFlow {
    GroupSpamBannerReport,
    GroupInfoReport,
    MessageMenu,
    ContactInfo,
    StatusReport,
}

/// Name of a flow on the wire.
pub open spec fn spam_flow_name(f: SpamFlow) -> Seq<char> {
    match f {
        SpamFlow::GroupSpamBannerReport => "GroupSpamBannerReport"@,
        SpamFlow::GroupInfoReport => "GroupInfoReport"@,
        SpamFlow::MessageMenu => "MessageMenu"@,
        SpamFlow::ContactInfo => "ContactInfo"@,
        SpamFlow::StatusReport => "StatusReport"@,
    }
}

impl SpamFlow {
    /// Name of the flow on the wire.
    pub fn as_str(&self) -> (r: &'static str)
        ensures
            r@ == spam_flow_name(*self),
    {
        match self {
            SpamFlow::GroupSpamBannerReport => "GroupSpamBannerReport",
            SpamFlow::GroupInfoReport => "GroupInfoReport",
            SpamFlow::MessageMenu => "MessageMenu",
            SpamFlow::ContactInfo => "ContactInfo",
            SpamFlow::StatusReport => "StatusReport",
        }
    }
}

impl Default for SpamFlow {
    fn default() -> (r: SpamFlow)
        ensures
            r == SpamFlow::MessageMenu,
    {
        SpamFlow::MessageMenu
    }
}

/// A report of one message as spam.
#[derive(Debug, Clone)]
pub struct SpamReportRequest {
    pub message_id: String,
    pub message_timestamp: u64,
    pub from_jid: Option<Jid>,
    pub participant_jid: Option<Jid>,
    pub group_jid: Option<Jid>,
    pub group_subject: Option<String>,
    pub spam_flow: SpamFlow,
    pub raw_message: Option<Vec<u8>>,
    pub media_type: Option<String>,
}

impl Default for SpamReportRequest {
    fn default() -> (r: SpamReportRequest)
        ensures
            r.message_id@ == Seq::<char>::empty(),
            r.message_timestamp == 0,
            r.from_jid is None,
            r.participant_jid is None,
            r.group_jid is None,
            r.group_subject is None,
            r.spam_flow == SpamFlow::MessageMenu,
            r.raw_message is None,
            r.media_type is None,
    {
        SpamReportRequest {
            message_id: String::new(),
            message_timestamp: 0,
            from_jid: None,
            participant_jid: None,
            group_jid: None,
            group_subject: None,
            spam_flow: SpamFlow::MessageMenu,
            raw_message: None,
            media_type: None,
        }
    }
}

/// What the server answered to a report.
#[derive(Debug, Clone, PartialEq, Eq)]
pub struct SpamReportResult {
    pub report_id: Option<String>,
}

/// Text form of a JID: `user[:device]@server`.
pub open spec fn jid_text(j: Jid) -> Seq<char> {
    jid_encode_spec(
        j.user@,
        j.server@,
        if j.device > 0 {
            Some(j.device)
        } else {
            None
        },
    )
}

/// Adds `k => v` when a value is present.
pub open spec fn insert_opt(m: Map<Seq<char>, Seq<char>>, k: Seq<char>, v: Option<Seq<char>>) -> Map<
    Seq<char>,
    Seq<char>,
> {
    match v {
        Some(x) => m.insert(k, x),
        None => m,
    }
}

pub open spec fn opt_jid_text(j: Option<Jid>) -> Option<Seq<char>> {
    match j {
        Some(x) => Some(jid_text(x)),
        None => None,
    }
}

pub open spec fn opt_text(s: Option<String>) -> Option<Seq<char>> {
    match s {
        Some(x) => Some(x@),
        None => None,
    }
}

/// The `raw` node: version 3, the media type when given, the message bytes.
pub open spec fn raw_view(raw: Seq<u8>, media_type: Option<String>) -> NodeView {
    NodeView {
        tag: "raw"@,
        attrs: insert_opt(Map::empty().insert("v"@, "3"@), "mediatype"@, opt_text(media_type)),
        content: ContentView::Bytes(raw),
    }
}

/// The `message` node: id, timestamp, sender and participant, and the raw
/// message when one is given.
pub open spec fn spam_message_view(r: SpamReportRequest) -> NodeView {
    NodeView {
        tag: "message"@,
        attrs: insert_opt(
            insert_opt(
                Map::empty().insert("id"@, r.message_id@).insert("t"@, decimal_chars(r.message_timestamp as nat)),
                "from"@,
                opt_jid_text(r.from_jid),
            ),
            "participant"@,
            opt_jid_text(r.participant_jid),
        ),
        content: match r.raw_message {
            Some(raw) => ContentView::Nodes(seq![raw_view(raw@, r.media_type)]),
            None => ContentView::Empty,
        },
    }
}

/// Attributes of `spam_list`: the flow, and for a group its JID and subject.
pub open spec fn spam_list_attrs(r: SpamReportRequest) -> Map<Seq<char>, Seq<char>> {
    let base = Map::empty().insert("spam_flow"@, spam_flow_name(r.spam_flow));
    match r.group_jid {
        Some(g) => insert_opt(base.insert("jid"@, jid_text(g)), "subject"@, opt_text(r.group_subject)),
        None => base,
    }
}

/// The `spam_list` stanza of a report.
pub open spec fn spam_list_view(r: SpamReportRequest) -> NodeView {
    NodeView {
        tag: "spam_list"@,
        attrs: spam_list_attrs(r),
        content: ContentView::Nodes(seq![spam_message_view(r)]),
    }
}

fn insert_opt_attr(attrs: &mut Vec<(String, String)>, key: &str, value: Option<String>)
    requires
        attrs_distinct(old(attrs)@),
    ensures
        attrs_distinct(final(attrs)@),
        attrs_map(final(attrs)@) == insert_opt(attrs_map(old(attrs)@), key@, opt_text(value)),
{
    match value {
        Some(v) => insert_attr(attrs, key.to_owned(), v),
        None => {},
    }
}

fn opt_jid_string(j: &Option<Jid>) -> (r: Option<String>)
    ensures
        opt_text(r) == opt_jid_text(*j),
{
    match j {
        Some(x) => Some(x.to_jid_string()),
        None => None,
    }
}

/// Builds the `spam_list` stanza that reports a message.
pub fn build_spam_list_node(request: &SpamReportRequest) -> (r: BinaryNode)
    ensures
        r.wf(),
        r@ == spam_list_view(*request),
{
    let mut message_attrs: Vec<(String, String)> = Vec::new();
    insert_attr(&mut message_attrs, "id".to_owned(), request.message_id.clone());
    insert_attr(&mut message_attrs, "t".to_owned(), decimal_string(request.message_timestamp as u128));
    insert_opt_attr(&mut message_attrs, "from", opt_jid_string(&request.from_jid));
    insert_opt_attr(&mut message_attrs, "participant", opt_jid_string(&request.participant_jid));
    let message_content = match &request.raw_message {
        Some(raw) => {
            let mut raw_attrs: Vec<(String, String)> = Vec::new();
            insert_attr(&mut raw_attrs, "v".to_owned(), "3".to_owned());
            insert_opt_attr(&mut raw_attrs, "mediatype", request.media_type.clone());
            let raw_node = BinaryNode {
                tag: "raw".to_owned(),
                attrs: raw_attrs,
                content: NodeContent::Bytes(raw.clone()),
            };
            proof {
                crate::binary_node::lemma_node_view_unfold(&raw_node);
                assert(raw_node@ == raw_view(raw@, request.media_type));
            }
            let mut children: Vec<BinaryNode> = Vec::new();
            children.push(raw_node);
            assert(content_view(&NodeContent::Nodes(children)) == ContentView::Nodes(
                seq![raw_view(raw@, request.media_type)],
            )) by {
                assert(Seq::new(children@.len(), |i: int| crate::binary_node::node_view(&children@[i]))
                    =~= seq![raw_view(raw@, request.media_type)]);
            }
            NodeContent::Nodes(children)
        },
        None => NodeContent::Empty,
    };
    let message = BinaryNode { tag: "message".to_owned(), attrs: message_attrs, content: message_content };
    proof {
        crate::binary_node::lemma_node_view_unfold(&message);
        assert(message@ == spam_message_view(*request));
    }
    let mut list_attrs: Vec<(String, String)> = Vec::new();
    insert_attr(&mut list_attrs, "spam_flow".to_owned(), request.spam_flow.as_str().to_owned());
    match &request.group_jid {
        Some(g) => {
            insert_attr(&mut list_attrs, "jid".to_owned(), g.to_jid_string());
            insert_opt_attr(&mut list_attrs, "subject", request.group_subject.clone());
        },
        None => {},
    }
    let mut children: Vec<BinaryNode> = Vec::new();
    children.push(message);
    let node = BinaryNode { tag: "spam_list".to_owned(), attrs: list_attrs, content: NodeContent::Nodes(children) };
    proof {
        crate::binary_node::lemma_node_view_unfold(&node);
        assert(Seq::new(1, |i: int| crate::binary_node::node_view(&node.content->Nodes_0@[i]))
            =~= seq![spam_message_view(*request)]);
    }
    node
}

/// Body of a node of the server's answer: text, bytes, child nodes or nothing.
#[derive(Debug, PartialEq, Eq)]
pub enum ReplyContent {
    Text(String),
    Bytes(Vec<u8>),
    Nodes(Vec<ReplyNode>),
    Empty,
}

/// A node of the server's answer, as far as reading it needs: its tag and body.
#[derive(Debug, PartialEq, Eq)]
pub struct ReplyNode {
    pub tag: String,
    pub content: ReplyContent,
}

/// The first node of `ns` tagged `tag`.
pub open spec fn first_reply_tagged(ns: Seq<ReplyNode>, tag: Seq<char>) -> Option<ReplyNode>
    decreases ns.len(),
{
    if ns.len() == 0 {
        None
    } else if ns[0].tag@ == tag {
        Some(ns[0])
    } else {
        first_reply_tagged(ns.drop_first(), tag)
    }
}

/// The report id of an answer: the text body of its first `report_id` child;
/// none when that child has no text body.
pub open spec fn report_id_of(response: ReplyNode) -> Option<Seq<char>> {
    match response.content {
        ReplyContent::Nodes(ns) => match first_reply_tagged(ns@, "report_id"@) {
            Some(n) => match n.content {
                ReplyContent::Text(t) => Some(t@),
                _ => None,
            },
            None => None,
        },
        _ => None,
    }
}

/// Reads the server's answer to a report.
pub fn spam_report_result(response: &ReplyNode) -> (r: SpamReportResult)
    ensures
        opt_text(r.report_id) == report_id_of(*response),
{
    let children = match &response.content {
        ReplyContent::Nodes(ns) => ns,
        _ => return SpamReportResult { report_id: None },
    };
    let mut i: usize = 0;
    assert(children@.subrange(0, children@.len() as int) =~= children@);
    while i < children.len()
        invariant
            response.content == ReplyContent::Nodes(*children),
            i <= children@.len(),
            first_reply_tagged(children@, "report_id"@) == first_reply_tagged(children@.subrange(i as int, children@.len() as int), "report_id"@),
        decreases children@.len() - i,
    {
        let ghost rest = children@.subrange(i as int, children@.len() as int);
        if str_eq(children[i].tag.as_str(), "report_id") {
            proof {
                assert(rest.len() > 0 && rest[0] == children@[i as int]);
                assert(first_reply_tagged(rest, "report_id"@) == Some(children@[i as int]));
            }
            return match &children[i].content {
                ReplyContent::Text(t) => SpamReportResult { report_id: Some(t.clone()) },
                _ => SpamReportResult { report_id: None },
            };
        }
        proof {
            assert(rest.drop_first() =~= children@.subrange(i + 1, children@.len() as int));
        }
        i += 1;
    }
    SpamReportResult { report_id: None }
}

} // verus!
