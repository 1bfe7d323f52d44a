//! Envelopes and their bodies, with their mathematical views.

use vstd::prelude::*;

verus! {

/// The payload of an envelope, tagged by `msg_type`.
///
/// `node_id`, `node_ids` and `topology` are only read from inbound
/// envelopes (`topology` as the entries of a map, so with unique keys);
/// a message id of zero marks an inter-node message that asks
/// for no reply.
#[derive(Clone, Debug, PartialEq, Eq)]
pub struct MessageBody {
    pub msg_type: String,
    pub msg_id: u128,
    pub in_reply_to: u128,
    pub node_id: String,
    pub node_ids: Vec<String>,
    pub topology: Vec<(String, Vec<String>)>,
    pub message: u128,
    pub messages: Option<Vec<u128>>,
}

/// The wire unit: who sent it, to whom, and what it says.
#[derive(Clone, Debug, PartialEq, Eq)]
pub struct Message {
    pub src: String,
    pub dest: String,
    pub body: MessageBody,
}

/// A node identifier as a sequence of characters.
pub type NameView = Seq<char>;

/// The view of a body: every string as its characters.
pub struct BodyView {
    pub msg_type: NameView,
    pub msg_id: u128,
    pub in_reply_to: u128,
    pub node_id: NameView,
    pub node_ids: Seq<NameView>,
    pub topology: Seq<(NameView, Seq<NameView>)>,
    pub message: u128,
    pub messages: Option<Seq<u128>>,
}

pub struct MessageView {
    pub src: NameView,
    pub dest: NameView,
    pub body: BodyView,
}

pub open spec fn names_view(v: Seq<String>) -> Seq<NameView> {
    v.map_values(|s: String| s@)
}

pub open spec fn topology_view(t: Seq<(String, Vec<String>)>) -> Seq<(NameView, Seq<NameView>)> {
    t.map_values(|e: (String, Vec<String>)| (e.0@, names_view(e.1@)))
}

impl View for MessageBody {
    type V = BodyView;

    open spec fn view(&self) -> BodyView {
        BodyView {
            msg_type: self.msg_type@,
            msg_id: self.msg_id,
            in_reply_to: self.in_reply_to,
            node_id: self.node_id@,
            node_ids: names_view(self.node_ids@),
            topology: topology_view(self.topology@),
            message: self.message,
            messages: match self.messages {
                Some(v) => Some(v@),
                None => None,
            },
        }
    }
}

impl View for Message {
    type V = MessageView;

    open spec fn view(&self) -> MessageView {
        MessageView { src: self.src@, dest: self.dest@, body: self.body@ }
    }
}

impl MessageBody {
    /// Whether the sender asks for a reply: a message id of zero marks an
    /// inter-node message that gets none.
    pub fn expects_reply(&self) -> (r: bool)
        ensures
            r == (self.msg_id > 0),
    {
        self.msg_id > 0
    }
}

pub open spec fn messages_view(v: Seq<Message>) -> Seq<MessageView> {
    v.map_values(|m: Message| m@)
}

/// The message types that a node tells apart.
#[derive(PartialEq, Eq, Structural, Clone, Copy, Debug)]
pub enum MessageKind {
    Init,
    Topology,
    Broadcast,
    Read,
    BroadcastOk,
    Unknown,
}

/// The kind that a type tag names; any other tag is `Unknown`.
pub open spec fn kind_spec(t: NameView) -> MessageKind {
    if t == "init"@ {
        MessageKind::Init
    } else if t == "topology"@ {
        MessageKind::Topology
    } else if t == "broadcast"@ {
        MessageKind::Broadcast
    } else if t == "read"@ {
        MessageKind::Read
    } else if t == "broadcast_ok"@ {
        MessageKind::BroadcastOk
    } else {
        MessageKind::Unknown
    }
}

/// Classifies a type tag.
pub fn kind_of(t: &String) -> (k: MessageKind)
    ensures
        k == kind_spec(t@),
{
    if *t == String::from_str("init") {
        MessageKind::Init
    } else if *t == String::from_str("topology") {
        MessageKind::Topology
    } else if *t == String::from_str("broadcast") {
        MessageKind::Broadcast
    } else if *t == String::from_str("read") {
        MessageKind::Read
    } else if *t == String::from_str("broadcast_ok") {
        MessageKind::BroadcastOk
    } else {
        MessageKind::Unknown
    }
}

/// Whether a value is zero; a zero `message` is left off the wire.
pub fn is_zero(num: &u128) -> (r: bool)
    ensures
        r == (*num == 0),
{
    *num == 0
}

/// Whether a list of values is absent or empty; such a list is left off the
/// wire.
pub fn lists_nothing(messages: &Option<Vec<u128>>) -> (r: bool)
    ensures
        r == match messages {
            Some(v) => v@.len() == 0,
            None => true,
        },
{
    match messages {
        Some(v) => v.len() == 0,
        None => true,
    }
}

} // verus!
