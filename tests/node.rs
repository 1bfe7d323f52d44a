use broadcast_node::message::{is_zero, lists_nothing, kind_of, Message, MessageBody, MessageKind};
use broadcast_node::node::{find_neighbors, Node, NodeError};

fn body(msg_type: &str, msg_id: u128) -> MessageBody {
    MessageBody {
        msg_type: msg_type.to_string(),
        msg_id,
        in_reply_to: 0,
        node_id: String::new(),
        node_ids: Vec::new(),
        topology: Vec::new(),
        message: 0,
        messages: None,
    }
}

fn envelope(src: &str, dest: &str, body: MessageBody) -> Message {
    Message { src: src.to_string(), dest: dest.to_string(), body }
}

fn names(v: &[&str]) -> Vec<String> {
    v.iter().map(|s| s.to_string()).collect()
}

fn init(node: &mut Node, id: &str, all: &[&str]) -> Vec<Message> {
    let mut b = body("init", 1);
    b.node_id = id.to_string();
    b.node_ids = names(all);
    node.handle(&envelope("c1", id, b)).unwrap()
}

fn topology(node: &mut Node, entries: &[(&str, &[&str])], msg_id: u128) -> Result<Vec<Message>, NodeError> {
    let mut b = body("topology", msg_id);
    b.topology = entries.iter().map(|(k, v)| (k.to_string(), names(v))).collect();
    node.handle(&envelope("c1", "n1", b))
}

fn broadcast(node: &mut Node, src: &str, msg_id: u128, value: u128) -> Vec<Message> {
    let mut b = body("broadcast", msg_id);
    b.message = value;
    node.handle(&envelope(src, "n1", b)).unwrap()
}

fn read(node: &mut Node, msg_id: u128) -> Vec<Message> {
    node.handle(&envelope("c1", "n1", body("read", msg_id))).unwrap()
}

fn read_values(node: &mut Node, msg_id: u128) -> Vec<u128> {
    let out = read(node, msg_id);
    assert_eq!(out.len(), 1);
    assert_eq!(out[0].body.msg_type, "read_ok");
    let mut values = out[0].body.messages.clone().unwrap();
    values.sort();
    values
}

#[test]
fn new_node_is_empty() {
    let node = Node::new();
    assert_eq!(node.id, "");
    assert_eq!(node.msg_id, 0);
    assert!(node.node_ids.is_empty());
    assert!(node.neighbors.is_empty());
    assert!(node.messages.is_empty());
}

#[test]
fn scenario_init_replies_init_ok() {
    let mut node = Node::new();
    let out = init(&mut node, "n1", &["n1", "n2"]);
    assert_eq!(out.len(), 1);
    assert_eq!(out[0].src, "n1");
    assert_eq!(out[0].dest, "c1");
    assert_eq!(out[0].body.msg_type, "init_ok");
    assert_eq!(out[0].body.in_reply_to, 1);
    assert_eq!(out[0].body.msg_id, 1);
    assert_eq!(out[0].body.messages, None);
    assert_eq!(node.id, "n1");
    assert_eq!(node.node_ids, names(&["n1", "n2"]));
}

#[test]
fn scenario_broadcast_gossips_to_neighbor() {
    let mut node = Node::new();
    init(&mut node, "n1", &["n1", "n2"]);
    let out = topology(&mut node, &[("n1", &["n2"]), ("n2", &["n1"])], 2).unwrap();
    assert_eq!(out.len(), 1);
    assert_eq!(out[0].body.msg_type, "topology_ok");
    assert_eq!(out[0].body.in_reply_to, 2);
    assert_eq!(node.neighbors, names(&["n2"]));

    let out = broadcast(&mut node, "c1", 2, 42);
    assert_eq!(out.len(), 2);
    assert_eq!(out[0].src, "n1");
    assert_eq!(out[0].dest, "n2");
    assert_eq!(out[0].body.msg_type, "broadcast");
    assert_eq!(out[0].body.message, 42);
    assert_eq!(out[0].body.msg_id, 3);
    assert_eq!(out[0].body.in_reply_to, 0);
    assert_eq!(out[1].dest, "c1");
    assert_eq!(out[1].body.msg_type, "broadcast_ok");
    assert_eq!(out[1].body.in_reply_to, 2);
    assert_eq!(out[1].body.msg_id, 4);
    assert_eq!(node.msg_id, 4);
}

#[test]
fn scenario_repeated_broadcast_only_acknowledged() {
    let mut node = Node::new();
    init(&mut node, "n1", &["n1", "n2"]);
    topology(&mut node, &[("n1", &["n2"])], 2).unwrap();
    assert_eq!(broadcast(&mut node, "c1", 3, 42).len(), 2);
    let out = broadcast(&mut node, "c1", 4, 42);
    assert_eq!(out.len(), 1);
    assert_eq!(out[0].dest, "c1");
    assert_eq!(out[0].body.msg_type, "broadcast_ok");
    assert_eq!(out[0].body.in_reply_to, 4);
}

#[test]
fn scenario_read_lists_broadcast_value() {
    let mut node = Node::new();
    init(&mut node, "n1", &["n1", "n2"]);
    topology(&mut node, &[("n1", &["n2"])], 2).unwrap();
    broadcast(&mut node, "c1", 2, 42);
    let out = read(&mut node, 5);
    assert_eq!(out.len(), 1);
    assert_eq!(out[0].dest, "c1");
    assert_eq!(out[0].body.msg_type, "read_ok");
    assert_eq!(out[0].body.in_reply_to, 5);
    assert_eq!(out[0].body.messages, Some(vec![42]));
}

#[test]
fn scenario_topology_without_own_entry_is_survived() {
    let mut node = Node::new();
    init(&mut node, "n1", &["n1", "n2"]);
    topology(&mut node, &[("n1", &["n2"])], 2).unwrap();
    let before = node.msg_id;
    let r = topology(&mut node, &[("n2", &["n3"])], 3);
    assert_eq!(r, Err(NodeError::MissingTopologyEntry));
    assert_eq!(node.neighbors, names(&["n2"]));
    assert_eq!(node.msg_id, before);
    let out = broadcast(&mut node, "c1", 4, 7);
    assert_eq!(out.len(), 2);
    assert_eq!(out[0].dest, "n2");
    assert_eq!(read_values(&mut node, 5), vec![7]);
}

#[test]
fn read_after_broadcasts_lists_distinct_values() {
    let mut node = Node::new();
    init(&mut node, "n1", &["n1"]);
    for (i, v) in [5u128, 3, 5, 9, 3, 3, 0].iter().enumerate() {
        broadcast(&mut node, "c1", 10 + i as u128, *v);
    }
    assert_eq!(read_values(&mut node, 20), vec![0, 3, 5, 9]);
}

#[test]
fn read_on_new_node_is_empty() {
    let mut node = Node::new();
    assert_eq!(read_values(&mut node, 1), Vec::<u128>::new());
}

#[test]
fn repeated_broadcast_floods_once() {
    let mut node = Node::new();
    init(&mut node, "n1", &["n1", "n2", "n3"]);
    topology(&mut node, &[("n1", &["n2", "n3"])], 2).unwrap();
    let first = broadcast(&mut node, "c1", 3, 8);
    assert_eq!(first.iter().filter(|m| m.body.msg_type == "broadcast").count(), 2);
    for k in 0..3u128 {
        let again = broadcast(&mut node, "n2", 0, 8);
        assert!(again.is_empty(), "repeat {}", k);
    }
    assert_eq!(node.messages.len(), 1);
}

#[test]
fn flood_skips_self_and_sender() {
    let mut node = Node::new();
    init(&mut node, "n1", &["n1", "n2", "n3"]);
    topology(&mut node, &[("n1", &["n1", "n2", "n3"])], 2).unwrap();
    let out = broadcast(&mut node, "n2", 0, 11);
    assert_eq!(out.len(), 1);
    assert_eq!(out[0].dest, "n3");
    assert_eq!(out[0].body.msg_type, "broadcast");
}

#[test]
fn every_request_gets_one_correlated_reply() {
    let mut node = Node::new();
    init(&mut node, "n1", &["n1", "n2", "n3"]);
    topology(&mut node, &[("n1", &["n2", "n3"])], 2).unwrap();
    let out = broadcast(&mut node, "c7", 77, 1);
    let replies: Vec<&Message> = out.iter().filter(|m| m.body.in_reply_to == 77).collect();
    assert_eq!(replies.len(), 1);
    assert_eq!(replies[0].dest, "c7");
    let ids: Vec<u128> = out.iter().map(|m| m.body.msg_id).collect();
    assert_eq!(ids, vec![3, 4, 5]);
}

#[test]
fn zero_id_gets_no_reply() {
    let mut node = Node::new();
    init(&mut node, "n1", &["n1", "n2"]);
    topology(&mut node, &[("n1", &["n2"])], 2).unwrap();
    let out = read(&mut node, 0);
    assert!(out.is_empty());
    let out = broadcast(&mut node, "n3", 0, 4);
    assert_eq!(out.len(), 1);
    assert_eq!(out[0].dest, "n2");
    assert_eq!(out[0].body.in_reply_to, 0);
}

#[test]
fn broadcast_ok_is_ignored() {
    let mut node = Node::new();
    init(&mut node, "n1", &["n1"]);
    let before = node.msg_id;
    let out = node.handle(&envelope("n2", "n1", body("broadcast_ok", 9))).unwrap();
    assert!(out.is_empty());
    assert_eq!(node.msg_id, before);
}

#[test]
fn unknown_type_is_rejected() {
    let mut node = Node::new();
    init(&mut node, "n1", &["n1"]);
    let r = node.handle(&envelope("c1", "n1", body("echo", 5)));
    assert_eq!(r, Err(NodeError::UnknownMessageType));
    assert_eq!(node.msg_id, 1);
}

#[test]
fn kinds_are_told_apart() {
    assert_eq!(kind_of(&"init".to_string()), MessageKind::Init);
    assert_eq!(kind_of(&"topology".to_string()), MessageKind::Topology);
    assert_eq!(kind_of(&"broadcast".to_string()), MessageKind::Broadcast);
    assert_eq!(kind_of(&"read".to_string()), MessageKind::Read);
    assert_eq!(kind_of(&"broadcast_ok".to_string()), MessageKind::BroadcastOk);
    assert_eq!(kind_of(&"read_ok".to_string()), MessageKind::Unknown);
    assert_eq!(kind_of(&"".to_string()), MessageKind::Unknown);
}

#[test]
fn neighbors_found_by_first_matching_key() {
    let t = vec![
        ("n2".to_string(), names(&["n1"])),
        ("n1".to_string(), names(&["n2", "n3"])),
    ];
    assert_eq!(find_neighbors(&t, &"n1".to_string()), Some(names(&["n2", "n3"])));
    assert_eq!(find_neighbors(&t, &"n4".to_string()), None);
    assert_eq!(find_neighbors(&Vec::new(), &"n1".to_string()), None);
}

#[test]
fn zero_detected() {
    assert!(is_zero(&0));
    assert!(!is_zero(&1));
    assert!(!is_zero(&u128::MAX));
}

#[test]
fn default_node_is_new_node() {
    let node = Node::default();
    assert_eq!(node.id, "");
    assert_eq!(node.msg_id, 0);
    assert!(node.messages.is_empty());
}

#[test]
fn zero_id_expects_no_reply() {
    assert!(!body("broadcast", 0).expects_reply());
    assert!(body("broadcast", 1).expects_reply());
    assert!(body("read", u128::MAX).expects_reply());
}

#[test]
fn seen_grows_by_one_per_distinct_value() {
    let mut node = Node::new();
    init(&mut node, "n1", &["n1"]);
    for v in [1u128, 2, 2, 1, 3, 1] {
        broadcast(&mut node, "c1", 0, v);
    }
    assert_eq!(node.messages.len(), 3);
}

#[test]
fn duplicate_neighbor_gets_one_copy() {
    let mut node = Node::new();
    init(&mut node, "n1", &["n1", "n2", "n3"]);
    topology(&mut node, &[("n1", &["n2", "n3", "n2", "n1", "n3"])], 2).unwrap();
    let out = broadcast(&mut node, "c1", 3, 6);
    let dests: Vec<&str> = out.iter().map(|m| m.dest.as_str()).collect();
    assert_eq!(dests, vec!["n2", "n3", "c1"]);
    let ids: Vec<u128> = out.iter().map(|m| m.body.msg_id).collect();
    assert_eq!(ids, vec![3, 4, 5]);
    assert_eq!(node.msg_id, 5);
}

#[test]
fn second_init_keeps_identity() {
    let mut node = Node::new();
    init(&mut node, "n1", &["n1", "n2"]);
    let mut b = body("init", 7);
    b.node_id = "n9".to_string();
    b.node_ids = names(&["n9"]);
    let out = node.handle(&envelope("c2", "n9", b)).unwrap();
    assert_eq!(out.len(), 1);
    assert_eq!(out[0].src, "n1");
    assert_eq!(out[0].dest, "c2");
    assert_eq!(out[0].body.msg_type, "init_ok");
    assert_eq!(out[0].body.in_reply_to, 7);
    assert_eq!(node.id, "n1");
    assert_eq!(node.node_ids, names(&["n1", "n2"]));
}

#[test]
fn empty_listing_detected() {
    assert!(lists_nothing(&None));
    assert!(lists_nothing(&Some(Vec::new())));
    assert!(!lists_nothing(&Some(vec![0])));
}
