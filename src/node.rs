//! The node: its state, the transition that each inbound envelope makes,
//! and the envelopes it sends in return.

use std::collections::HashSet;
use vstd::prelude::*;
use vstd::std_specs::hash::spec_hash_keys_iter;
use vstd::std_specs::iter::IteratorSpec;

use crate::message::{
    kind_of, kind_spec, messages_view, names_view, topology_view, BodyView, Message, MessageBody,
    MessageKind, MessageView, NameView,
};

verus! {

broadcast use vstd::std_specs::hash::group_hash_axioms;

/// The state of one node of the cluster.
#[derive(Debug)]
pub struct Node {
    /// This node's identifier; empty until `init`, fixed after it.
    pub id: String,
    /// The last message id this node gave out; zero before its first send.
    pub msg_id: u128,
    /// Every node of the cluster, as `init` listed them.
    pub node_ids: Vec<String>,
    /// The nodes this node gossips to, as the last `topology` gave them; a
    /// node listed twice is still flooded once.
    pub neighbors: Vec<String>,
    /// Every value received by `broadcast`.
    pub messages: HashSet<u128>,
}

/// The mathematical state of a node.
pub struct NodeModel {
    pub id: NameView,
    pub msg_id: nat,
    pub node_ids: Seq<NameView>,
    pub neighbors: Seq<NameView>,
    pub seen: Set<u128>,
}

impl View for Node {
    type V = NodeModel;

    open spec fn view(&self) -> NodeModel {
        NodeModel {
            id: self.id@,
            msg_id: self.msg_id as nat,
            node_ids: names_view(self.node_ids@),
            neighbors: names_view(self.neighbors@),
            seen: self.messages@,
        }
    }
}

/// What can go wrong while handling one envelope. Neither is fatal: the
/// envelope is dropped and the node's state stays as it was.
#[derive(PartialEq, Eq, Structural, Clone, Copy, Debug)]
pub enum NodeError {
    /// A `topology` map holds no entry for this node's id.
    MissingTopologyEntry,
    /// The type tag names no message this node handles.
    UnknownMessageType,
}

/// The state of a node before any envelope.
pub open spec fn initial_model() -> NodeModel {
    NodeModel {
        id: Seq::empty(),
        msg_id: 0,
        node_ids: Seq::empty(),
        neighbors: Seq::empty(),
        seen: Set::empty(),
    }
}

/// Whether `init` has given the node its id; from then on the id and the
/// list of all nodes stay as they are.
pub open spec fn initialized(n: NodeModel) -> bool {
    n.id.len() > 0
}

/// Whether no two entries of `t` have the same key, as in a map.
pub open spec fn unique_keys(t: Seq<(NameView, Seq<NameView>)>) -> bool {
    forall|i: int, j: int| 0 <= i < j < t.len() ==> t[i].0 != t[j].0
}

/// Where keys are unique, the entry that `topology_entry` finds for a key is
/// the one entry with that key.
pub proof fn lemma_topology_entry_unique(t: Seq<(NameView, Seq<NameView>)>, id: NameView, i: int)
    requires
        unique_keys(t),
        0 <= i < t.len(),
        t[i].0 == id,
    ensures
        topology_entry(t, id) == Some(t[i].1),
    decreases t.len(),
{
    if t[0].0 != id {
        let rest = t.drop_first();
        assert(rest[i - 1] == t[i]);
        assert(unique_keys(rest)) by {
            assert forall|a: int, b: int| 0 <= a < b < rest.len() implies rest[a].0 != rest[b].0 by {
                assert(rest[a] == t[a + 1] && rest[b] == t[b + 1]);
            }
        }
        lemma_topology_entry_unique(rest, id, i - 1);
    } else if i != 0 {
        assert(t[0].0 != t[i].0);
    }
}

/// The neighbor list of the first entry of `t` whose key is `id`.
pub open spec fn topology_entry(t: Seq<(NameView, Seq<NameView>)>, id: NameView) -> Option<
    Seq<NameView>,
>
    decreases t.len(),
{
    if t.len() == 0 {
        None
    } else if t[0].0 == id {
        Some(t[0].1)
    } else {
        topology_entry(t.drop_first(), id)
    }
}

/// The error that handling `m` in state `n` ends in, if any.
pub open spec fn handle_error(n: NodeModel, m: MessageView) -> Option<NodeError> {
    match kind_spec(m.body.msg_type) {
        MessageKind::Unknown => Some(NodeError::UnknownMessageType),
        MessageKind::Topology => if topology_entry(m.body.topology, n.id) is None {
            Some(NodeError::MissingTopologyEntry)
        } else {
            None
        },
        _ => None,
    }
}

/// The kinds of request that are answered.
pub open spec fn answered(k: MessageKind) -> bool {
    k == MessageKind::Init || k == MessageKind::Topology || k == MessageKind::Broadcast || k
        == MessageKind::Read
}

/// Whether handling `m` in state `n` sends a reply to its sender.
pub open spec fn wants_reply(n: NodeModel, m: MessageView) -> bool {
    &&& answered(kind_spec(m.body.msg_type))
    &&& m.body.msg_id > 0
    &&& handle_error(n, m) is None
}

/// Whether `m` carries a value that `n` has not seen, so that it floods.
pub open spec fn floods(n: NodeModel, m: MessageView) -> bool {
    kind_spec(m.body.msg_type) == MessageKind::Broadcast && !n.seen.contains(m.body.message)
}

/// Whether a flood from node `id` of a value that came from `sender` goes to `t`.
pub open spec fn flood_pred(id: NameView, sender: NameView) -> spec_fn(NameView) -> bool {
    |t: NameView| t != id && t != sender
}

/// The first occurrence of each element of `s`, in order.
pub open spec fn distinct(s: Seq<NameView>) -> Seq<NameView>
    decreases s.len(),
{
    if s.len() == 0 {
        s
    } else {
        let d = distinct(s.drop_last());
        if d.contains(s.last()) {
            d
        } else {
            d.push(s.last())
        }
    }
}

/// The neighbors a flood from `n` reaches, each once: all but `n` itself and
/// `sender`.
pub open spec fn flood_targets(n: NodeModel, sender: NameView) -> Seq<NameView> {
    distinct(n.neighbors.filter(flood_pred(n.id, sender)))
}

/// Keeping the first occurrence of each element keeps every element, once.
pub proof fn lemma_distinct(s: Seq<NameView>)
    ensures
        distinct(s).no_duplicates(),
        distinct(s).to_set() == s.to_set(),
    decreases s.len(),
{
    if s.len() > 0 {
        let front = s.drop_last();
        let x = s.last();
        lemma_distinct(front);
        let d = distinct(front);
        assert(s =~= front.push(x));
        front.lemma_push_to_set_commute(x);
        if d.contains(x) {
            assert(d.to_set().contains(x));
            assert(d.to_set().insert(x) =~= d.to_set());
        } else {
            d.lemma_push_to_set_commute(x);
            let e = d.push(x);
            assert forall|i: int, j: int|
                0 <= i < e.len() && 0 <= j < e.len() && i != j implies e[i] != e[j] by {
                if i < d.len() && j < d.len() {
                    assert(e[i] == d[i] && e[j] == d[j]);
                } else if i < d.len() {
                    assert(e[i] == d[i]);
                } else {
                    assert(e[j] == d[j]);
                }
            }
        }
    }
}

/// Keeping first occurrences never lengthens a sequence.
pub proof fn lemma_distinct_len(s: Seq<NameView>)
    ensures
        distinct(s).len() <= s.len(),
    decreases s.len(),
{
    if s.len() > 0 {
        lemma_distinct_len(s.drop_last());
    }
}

/// The flood from `n` of a value that came from `sender` reaches each
/// neighbor but `n` itself and `sender`, once, and no other node.
pub proof fn lemma_flood_targets(n: NodeModel, sender: NameView)
    ensures
        flood_targets(n, sender).no_duplicates(),
        flood_targets(n, sender).to_set() == n.neighbors.to_set().filter(flood_pred(n.id, sender)),
        forall|j: int|
            0 <= j < flood_targets(n, sender).len() ==> #[trigger] flood_targets(n, sender)[j]
                != n.id && flood_targets(n, sender)[j] != sender,
{
    let p = flood_pred(n.id, sender);
    let f = n.neighbors.filter(p);
    lemma_distinct(f);
    assert forall|t: NameView| f.to_set().contains(t) <==> n.neighbors.to_set().filter(p).contains(t) by {
        if f.contains(t) {
            n.neighbors.lemma_filter_contains_rev(p, t);
            let k = choose|k: int| 0 <= k < f.len() && f[k] == t;
            n.neighbors.lemma_filter_pred(p, k);
        }
        if n.neighbors.contains(t) && p(t) {
            let k = choose|k: int| 0 <= k < n.neighbors.len() && n.neighbors[k] == t;
            n.neighbors.lemma_filter_contains(p, k);
        }
    }
    assert(f.to_set() =~= n.neighbors.to_set().filter(p));
    let ts = flood_targets(n, sender);
    assert forall|j: int| 0 <= j < ts.len() implies #[trigger] ts[j] != n.id && ts[j] != sender by {
        assert(ts.to_set().contains(ts[j]));
        assert(f.to_set().contains(ts[j]));
        let k = choose|k: int| 0 <= k < f.len() && f[k] == ts[j];
        n.neighbors.lemma_filter_pred(p, k);
    }
}

/// The copy of `m`'s broadcast that `n` sends to `dest` under message id `id`.
pub open spec fn gossip_message(n: NodeModel, m: MessageView, dest: NameView, id: nat) -> MessageView {
    MessageView {
        src: n.id,
        dest,
        body: BodyView {
            msg_type: m.body.msg_type,
            msg_id: id as u128,
            in_reply_to: 0,
            node_id: Seq::empty(),
            node_ids: Seq::empty(),
            topology: Seq::empty(),
            message: m.body.message,
            messages: None,
        },
    }
}

/// The envelopes of a flood of `m` from `n`, in neighbor order, each with
/// the next message id.
pub open spec fn flood(n: NodeModel, m: MessageView) -> Seq<MessageView> {
    flood_to(n, m, flood_targets(n, m.src))
}

/// The copies of `m` that `n` sends to each of `ts` in turn.
pub open spec fn flood_to(n: NodeModel, m: MessageView, ts: Seq<NameView>) -> Seq<MessageView> {
    Seq::new(ts.len(), |j: int| gossip_message(n, m, ts[j], (n.msg_id + j + 1) as nat))
}

/// The gossip that handling `m` in state `n` sends.
pub open spec fn gossip(n: NodeModel, m: MessageView) -> Seq<MessageView> {
    if floods(n, m) {
        flood(n, m)
    } else {
        Seq::empty()
    }
}

/// How many envelopes handling `m` in state `n` sends.
pub open spec fn sent_count(n: NodeModel, m: MessageView) -> nat {
    gossip(n, m).len() + if wants_reply(n, m) {
        1nat
    } else {
        0nat
    }
}

/// The state after handling `m` in state `n`.
pub open spec fn next_state(n: NodeModel, m: MessageView) -> NodeModel {
    let s = match kind_spec(m.body.msg_type) {
        MessageKind::Init => if initialized(n) {
            n
        } else {
            NodeModel { id: m.body.node_id, node_ids: m.body.node_ids, ..n }
        },
        MessageKind::Topology => match topology_entry(m.body.topology, n.id) {
            Some(nb) => NodeModel { neighbors: nb, ..n },
            None => n,
        },
        MessageKind::Broadcast => NodeModel { seen: n.seen.insert(m.body.message), ..n },
        _ => n,
    };
    NodeModel { msg_id: n.msg_id + sent_count(n, m), ..s }
}

/// The type tag of the reply to a request of kind `k`.
pub open spec fn reply_type(k: MessageKind) -> NameView {
    match k {
        MessageKind::Init => "init_ok"@,
        MessageKind::Topology => "topology_ok"@,
        MessageKind::Broadcast => "broadcast_ok"@,
        MessageKind::Read => "read_ok"@,
        _ => Seq::empty(),
    }
}

/// Whether `l` lists the values of `s`, each once, in some order.
pub open spec fn lists(l: Seq<u128>, s: Set<u128>) -> bool {
    l.to_set() == s && l.no_duplicates()
}

/// Whether `r` is the reply that handling `m` in state `n` sends: from the
/// node's id, to `m`'s sender, correlated with `m`'s id, under the next
/// message id after the gossip.
pub open spec fn is_reply(n: NodeModel, m: MessageView, r: MessageView) -> bool {
    let k = kind_spec(m.body.msg_type);
    &&& r.src == next_state(n, m).id
    &&& r.dest == m.src
    &&& r.body.msg_type == reply_type(k)
    &&& r.body.msg_id == n.msg_id + gossip(n, m).len() + 1
    &&& r.body.in_reply_to == m.body.msg_id
    &&& r.body.node_id == Seq::<char>::empty()
    &&& r.body.node_ids == Seq::<NameView>::empty()
    &&& r.body.topology == Seq::<(NameView, Seq<NameView>)>::empty()
    &&& r.body.message == 0
    &&& if k == MessageKind::Read {
        r.body.messages matches Some(l) && lists(l, n.seen)
    } else {
        r.body.messages is None
    }
}

/// Whether `out` is what handling `m` in state `n` sends: the gossip, then
/// the reply if one is owed.
pub open spec fn outputs_ok(n: NodeModel, m: MessageView, out: Seq<MessageView>) -> bool {
    let g = gossip(n, m);
    if wants_reply(n, m) {
        &&& out.len() == g.len() + 1
        &&& out.take(g.len() as int) == g
        &&& is_reply(n, m, out[g.len() as int])
    } else {
        out == g
    }
}

/// Copies a list of names.
fn copy_names(v: &Vec<String>) -> (r: Vec<String>)
    ensures
        r@ == v@,
{
    let mut r: Vec<String> = Vec::new();
    let mut i: usize = 0;
    while i < v.len()
        invariant
            i <= v.len(),
            r@ == v@.take(i as int),
        decreases v.len() - i,
    {
        r.push(v[i].clone());
        i = i + 1;
        assert(r@ =~= v@.take(i as int));
    }
    assert(v@.take(v.len() as int) =~= v@);
    r
}

/// Looks up the neighbor list that `topology` gives `id`.
pub fn find_neighbors(topology: &Vec<(String, Vec<String>)>, id: &String) -> (r: Option<
    Vec<String>,
>)
    ensures
        match r {
            Some(v) => topology_entry(topology_view(topology@), id@) == Some(names_view(v@)),
            None => topology_entry(topology_view(topology@), id@) is None,
        },
        unique_keys(topology_view(topology@)) ==> forall|i: int|
            0 <= i < topology@.len() && #[trigger] topology_view(topology@)[i].0 == id@ ==> (r matches Some(
                v,
            ) && names_view(v@) == topology_view(topology@)[i].1),
{
    proof {
        if unique_keys(topology_view(topology@)) {
            assert forall|i: int|
                0 <= i < topology@.len() && #[trigger] topology_view(topology@)[i].0
                    == id@ implies topology_entry(topology_view(topology@), id@) == Some(
                topology_view(topology@)[i].1,
            ) by {
                lemma_topology_entry_unique(topology_view(topology@), id@, i);
            }
        }
    }
    let ghost t = topology_view(topology@);
    let mut i: usize = 0;
    assert(t.skip(0) =~= t);
    while i < topology.len()
        invariant
            i <= topology.len(),
            t == topology_view(topology@),
            topology_entry(t.skip(i as int), id@) == topology_entry(t, id@),
        decreases topology.len() - i,
    {
        assert(t.skip(i as int).drop_first() =~= t.skip(i + 1));
        if topology[i].0 == *id {
            return Some(copy_names(&topology[i].1));
        }
        i = i + 1;
    }
    None
}

/// Whether some envelope of `out` goes to `dest`.
fn sent_to(out: &Vec<Message>, dest: &String) -> (r: bool)
    ensures
        r == exists|j: int| 0 <= j < out.len() && out@[j].dest@ == dest@,
{
    let mut i: usize = 0;
    while i < out.len()
        invariant
            i <= out.len(),
            forall|j: int| 0 <= j < i ==> out@[j].dest@ != dest@,
        decreases out.len() - i,
    {
        if out[i].dest == *dest {
            return true;
        }
        i = i + 1;
    }
    false
}

impl Default for Node {
    fn default() -> (n: Node)
        ensures
            n@ == initial_model(),
    {
        Node::new()
    }
}

impl Node {
    /// A node that has handled nothing yet.
    pub fn new() -> (n: Node)
        ensures
            n@ == initial_model(),
    {
        let n = Node {
            id: String::new(),
            msg_id: 0,
            node_ids: Vec::new(),
            neighbors: Vec::new(),
            messages: HashSet::new(),
        };
        assert(n@.node_ids =~= Seq::empty());
        assert(n@.neighbors =~= Seq::empty());
        n
    }

    /// Stamps `body` with this node's next message id and addresses it to
    /// `dest`.
    fn send(&mut self, dest: String, body: MessageBody) -> (m: Message)
        requires
            old(self).msg_id < u128::MAX,
        ensures
            final(self)@ == (NodeModel { msg_id: old(self)@.msg_id + 1, ..old(self)@ }),
            m@ == (MessageView {
                src: old(self).id@,
                dest: dest@,
                body: BodyView { msg_id: (old(self).msg_id + 1) as u128, ..body@ },
            }),
    {
        self.msg_id = self.msg_id + 1;
        let mut body = body;
        body.msg_id = self.msg_id;
        Message { src: self.id.clone(), dest, body }
    }

    /// Sends `body` back to the sender of `request`, correlated with its id.
    fn reply(&mut self, request: &Message, body: MessageBody) -> (m: Message)
        requires
            old(self).msg_id < u128::MAX,
        ensures
            final(self)@ == (NodeModel { msg_id: old(self)@.msg_id + 1, ..old(self)@ }),
            m@ == (MessageView {
                src: old(self).id@,
                dest: request.src@,
                body: BodyView {
                    msg_id: (old(self).msg_id + 1) as u128,
                    in_reply_to: request.body.msg_id,
                    ..body@
                },
            }),
    {
        let mut body = body;
        body.in_reply_to = request.body.msg_id;
        self.send(request.src.clone(), body)
    }

    /// Sends a copy of the broadcast `msg` to every neighbor but this node and
    /// `msg`'s sender, once to each.
    fn broadcast(&mut self, msg: &Message) -> (out: Vec<Message>)
        requires
            old(self).msg_id + old(self).neighbors.len() <= u128::MAX,
        ensures
            final(self)@ == (NodeModel {
                msg_id: old(self)@.msg_id + flood(old(self)@, msg@).len(),
                ..old(self)@
            }),
            messages_view(out@) == flood(old(self)@, msg@),
            flood(old(self)@, msg@).len() <= old(self).neighbors.len(),
            flood_targets(old(self)@, msg.src@).no_duplicates(),
            flood_targets(old(self)@, msg.src@).to_set() == old(self)@.neighbors.to_set().filter(
                flood_pred(old(self).id@, msg.src@),
            ),
    {
        let ghost n0 = self@;
        let ghost p = flood_pred(n0.id, msg@.src);
        let mut out: Vec<Message> = Vec::new();
        let mut i: usize = 0;
        while i < self.neighbors.len()
            invariant
                i <= self.neighbors.len(),
                out.len() <= i,
                self@ == (NodeModel { msg_id: n0.msg_id + out.len() as nat, ..n0 }),
                n0.msg_id + n0.neighbors.len() <= u128::MAX,
                p == flood_pred(n0.id, msg@.src),
                messages_view(out@) == flood_to(
                    n0,
                    msg@,
                    distinct(n0.neighbors.take(i as int).filter(p)),
                ),
            decreases self.neighbors.len() - i,
        {
            let ghost before = n0.neighbors.take(i as int);
            let ghost d = distinct(before.filter(p));
            assert(n0.neighbors.take(i + 1) =~= before.push(n0.neighbors[i as int]));
            proof {
                before.lemma_filter_push(n0.neighbors[i as int], p);
                before.lemma_filter_len(p);
                lemma_distinct_len(before.filter(p));
            }
            let dest = self.neighbors[i].clone();
            if !(dest == self.id) && !(dest == msg.src) && !sent_to(&out, &dest) {
                let body = MessageBody {
                    msg_type: msg.body.msg_type.clone(),
                    msg_id: 0,
                    in_reply_to: 0,
                    node_id: String::new(),
                    node_ids: Vec::new(),
                    topology: Vec::new(),
                    message: msg.body.message,
                    messages: None,
                };
                proof {
                    assert(messages_view(out@).len() == out.len());
                    assert forall|j: int| 0 <= j < d.len() implies d[j] != dest@ by {
                        assert(messages_view(out@)[j].dest == d[j]);
                        assert(out@[j].dest@ != dest@);
                    }
                    assert(!d.contains(dest@));
                    assert(before.filter(p).push(dest@).drop_last() =~= before.filter(p));
                }
                let m = self.send(dest, body);
                let ghost prev = out@;
                out.push(m);
                assert(messages_view(out@) =~= messages_view(prev).push(m@));
                assert(body@.node_ids =~= Seq::empty());
                assert(body@.topology =~= Seq::empty());
                assert(messages_view(out@) =~= flood_to(
                    n0,
                    msg@,
                    distinct(n0.neighbors.take(i + 1).filter(p)),
                ));
            } else {
                proof {
                    if p(dest@) {
                        assert(exists|j: int| 0 <= j < out.len() && out@[j].dest@ == dest@);
                        assert(messages_view(out@).len() == out.len());
                        let j = choose|j: int| 0 <= j < out.len() && out@[j].dest@ == dest@;
                        assert(messages_view(out@)[j].dest == d[j]);
                        assert(d.contains(dest@));
                    }
                    assert(before.filter(p).push(dest@).drop_last() =~= before.filter(p));
                }
            }
            i = i + 1;
        }
        assert(n0.neighbors.take(i as int) =~= n0.neighbors);
        proof {
            lemma_flood_targets(n0, msg@.src);
        }
        out
    }

    /// Every value seen so far, each once.
    fn listing(&self) -> (r: Vec<u128>)
        ensures
            lists(r@, self@.seen),
    {
        let ghost keys = spec_hash_keys_iter(&self.messages).remaining().unref();
        assert(keys.to_set() == self@.seen && keys.no_duplicates());
        let mut r: Vec<u128> = Vec::new();
        for v in it: self.messages.iter()
            invariant
                it.seq().unref() == keys,
                r@ == keys.take(it.index()),
        {
            r.push(*v);
            assert(r@ =~= keys.take(it.index() + 1));
        }
        assert(r@ =~= keys);
        r
    }

    /// Handles one inbound envelope: updates the state, and returns the gossip
    /// it floods followed by the reply it owes, or the error that made it drop
    /// the envelope.
    ///
    /// The counter of message ids must have room for one id per neighbor and
    /// one for the reply.
    pub fn handle(&mut self, msg: &Message) -> (r: Result<Vec<Message>, NodeError>)
        requires
            old(self).msg_id + old(self).neighbors.len() < u128::MAX,
        ensures
            final(self)@ == next_state(old(self)@, msg@),
            match r {
                Ok(out) => handle_error(old(self)@, msg@) is None && outputs_ok(
                    old(self)@,
                    msg@,
                    messages_view(out@),
                ),
                Err(e) => handle_error(old(self)@, msg@) == Some(e),
            },
    {
        let ghost n0 = self@;
        let kind = kind_of(&msg.body.msg_type);
        let mut out: Vec<Message> = Vec::new();
        let mut listing: Option<Vec<u128>> = None;
        let reply_type = match kind {
            MessageKind::Init => {
                if self.id.as_str().is_empty() {
                    self.id = msg.body.node_id.clone();
                    self.node_ids = copy_names(&msg.body.node_ids);
                }
                String::from_str("init_ok")
            },
            MessageKind::Topology => {
                match find_neighbors(&msg.body.topology, &self.id) {
                    Some(nb) => self.neighbors = nb,
                    None => {
                        return Err(NodeError::MissingTopologyEntry);
                    },
                }
                String::from_str("topology_ok")
            },
            MessageKind::Broadcast => {
                if self.messages.insert(msg.body.message) {
                    let ghost n1 = self@;
                    out = self.broadcast(msg);
                    assert(flood(n1, msg@) =~= flood(n0, msg@));
                }
                assert(messages_view(out@) == gossip(n0, msg@));
                String::from_str("broadcast_ok")
            },
            MessageKind::Read => {
                listing = Some(self.listing());
                String::from_str("read_ok")
            },
            MessageKind::BroadcastOk => {
                assert(messages_view(out@) =~= Seq::empty());
                return Ok(out);
            },
            MessageKind::Unknown => {
                return Err(NodeError::UnknownMessageType);
            },
        };
        assert(messages_view(out@) == gossip(n0, msg@));
        if msg.body.expects_reply() {
            let body = MessageBody {
                msg_type: reply_type,
                msg_id: 0,
                in_reply_to: 0,
                node_id: String::new(),
                node_ids: Vec::new(),
                topology: Vec::new(),
                message: 0,
                messages: listing,
            };
            let ghost prev = out@;
            let m = self.reply(msg, body);
            out.push(m);
            assert(messages_view(out@) =~= messages_view(prev).push(m@));
            assert(body@.node_ids =~= Seq::empty());
            assert(body@.topology =~= Seq::empty());
            assert(messages_view(out@).take(messages_view(prev).len() as int) =~= messages_view(prev));
        }
        Ok(out)
    }
}

} // verus!
