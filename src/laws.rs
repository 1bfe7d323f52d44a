//! What holds of a node across the envelopes it handles.

use vstd::prelude::*;
use vstd::seq_lib::seq_to_set_is_finite;
use vstd::set_lib::lemma_len_union;

use crate::message::{kind_spec, MessageKind, MessageView};
use crate::node::{
    answered, flood_targets, lemma_flood_targets, floods, gossip, handle_error, initial_model,
    initialized, next_state, outputs_ok, reply_type, NodeModel,
};

verus! {

/// The state after handling each of `ms` in turn, from state `n`.
pub open spec fn run(n: NodeModel, ms: Seq<MessageView>) -> NodeModel
    decreases ms.len(),
{
    if ms.len() == 0 {
        n
    } else {
        next_state(run(n, ms.drop_last()), ms.last())
    }
}

/// Whether every envelope of `ms` is a `broadcast`.
pub open spec fn all_broadcasts(ms: Seq<MessageView>) -> bool {
    forall|i: int| 0 <= i < ms.len() ==> kind_spec(#[trigger] ms[i].body.msg_type) == MessageKind::Broadcast
}

/// The values that the envelopes of `ms` carry.
pub open spec fn carried_values(ms: Seq<MessageView>) -> Seq<u128> {
    ms.map_values(|m: MessageView| m.body.message)
}

/// After a run of broadcasts, a node has seen what it had seen before and
/// every value broadcast to it, and nothing else.
pub proof fn lemma_seen_after_broadcasts(n: NodeModel, ms: Seq<MessageView>)
    requires
        all_broadcasts(ms),
    ensures
        run(n, ms).seen == n.seen.union(carried_values(ms).to_set()),
    decreases ms.len(),
{
    if ms.len() == 0 {
        assert(n.seen.union(carried_values(ms).to_set()) =~= n.seen);
    } else {
        let front = ms.drop_last();
        assert(all_broadcasts(front)) by {
            assert forall|i: int| 0 <= i < front.len() implies kind_spec(
                #[trigger] front[i].body.msg_type,
            ) == MessageKind::Broadcast by {
                assert(front[i] == ms[i]);
            }
        }
        lemma_seen_after_broadcasts(n, front);
        assert(kind_spec(ms[ms.len() - 1].body.msg_type) == MessageKind::Broadcast);
        assert(carried_values(ms) =~= carried_values(front).push(ms.last().body.message));
        carried_values(front).lemma_push_to_set_commute(ms.last().body.message);
        assert(run(n, ms).seen =~= n.seen.union(carried_values(ms).to_set()));
    }
}

/// A run of broadcasts adds at most one value to what a node has seen for
/// each distinct value it carries.
pub proof fn lemma_seen_grows_by_distinct_values(n: NodeModel, ms: Seq<MessageView>)
    requires
        all_broadcasts(ms),
        n.seen.finite(),
    ensures
        run(n, ms).seen.len() <= n.seen.len() + carried_values(ms).to_set().len(),
{
    lemma_seen_after_broadcasts(n, ms);
    seq_to_set_is_finite(carried_values(ms));
    lemma_len_union(n.seen, carried_values(ms).to_set());
}

/// Once a node has its id, no run of envelopes changes its id or its list
/// of all nodes.
pub proof fn lemma_identity_fixed_after_init(n: NodeModel, ms: Seq<MessageView>)
    requires
        initialized(n),
    ensures
        run(n, ms).id == n.id,
        run(n, ms).node_ids == n.node_ids,
    decreases ms.len(),
{
    if ms.len() > 0 {
        lemma_identity_fixed_after_init(n, ms.drop_last());
    }
}

/// A `read` after any run of broadcasts to a new node lists exactly the
/// distinct values broadcast, whatever their order and repetitions.
pub proof fn lemma_read_after_broadcasts(ms: Seq<MessageView>, r: MessageView, out: Seq<MessageView>)
    requires
        all_broadcasts(ms),
        kind_spec(r.body.msg_type) == MessageKind::Read,
        r.body.msg_id > 0,
        outputs_ok(run(initial_model(), ms), r, out),
    ensures
        out.len() == 1,
        out[0].body.messages matches Some(l) && l.to_set() == carried_values(ms).to_set()
            && l.no_duplicates(),
{
    lemma_seen_after_broadcasts(initial_model(), ms);
    assert(Set::<u128>::empty().union(carried_values(ms).to_set()) =~= carried_values(ms).to_set());
}

/// Broadcasting one value several times floods it at most once, on its first
/// arrival and only if it was new, and adds at most one value to what the
/// node has seen.
pub proof fn lemma_repeated_broadcast_floods_once(n: NodeModel, ms: Seq<MessageView>, v: u128)
    requires
        ms.len() > 1,
        all_broadcasts(ms),
        forall|i: int| 0 <= i < ms.len() ==> (#[trigger] ms[i]).body.message == v,
    ensures
        floods(n, ms[0]) <==> !n.seen.contains(v),
        forall|i: int|
            1 <= i < ms.len() ==> !floods(#[trigger] run(n, ms.take(i)), ms[i]) && gossip(
                run(n, ms.take(i)),
                ms[i],
            ) == Seq::<MessageView>::empty(),
        run(n, ms).seen == n.seen.insert(v),
        n.seen.finite() ==> run(n, ms).seen.len() <= n.seen.len() + 1,
{
    assert(kind_spec(ms[0].body.msg_type) == MessageKind::Broadcast);
    assert forall|i: int| 1 <= i < ms.len() implies !floods(#[trigger] run(n, ms.take(i)), ms[i])
        && gossip(run(n, ms.take(i)), ms[i]) == Seq::<MessageView>::empty() by {
        let pre = ms.take(i);
        assert(all_broadcasts(pre)) by {
            assert forall|j: int| 0 <= j < pre.len() implies kind_spec(
                #[trigger] pre[j].body.msg_type,
            ) == MessageKind::Broadcast by {
                assert(pre[j] == ms[j]);
            }
        }
        lemma_seen_after_broadcasts(n, pre);
        assert(carried_values(pre)[0] == v);
        assert(carried_values(pre).to_set().contains(v));
        assert(ms[i].body.message == v);
    }
    lemma_seen_after_broadcasts(n, ms);
    assert(carried_values(ms).to_set() =~= set![v]) by {
        assert(carried_values(ms)[0] == v);
    }
    assert(run(n, ms).seen =~= n.seen.insert(v));
}

/// A node never sends a broadcast to itself, nor back to the sender of the
/// envelope it is handling.
pub proof fn lemma_flood_skips_self_and_sender(n: NodeModel, m: MessageView, out: Seq<MessageView>)
    requires
        outputs_ok(n, m, out),
    ensures
        forall|i: int|
            0 <= i < out.len() && (#[trigger] out[i]).body.msg_type == "broadcast"@ ==> out[i].dest
                != n.id && out[i].dest != m.src,
{
    let g = gossip(n, m);
    assert forall|i: int|
        0 <= i < out.len() && (#[trigger] out[i]).body.msg_type == "broadcast"@ implies out[i].dest
            != n.id && out[i].dest != m.src by {
        if i < g.len() {
            assert(out[i] == out.take(g.len() as int)[i]);
            let ts = flood_targets(n, m.src);
            lemma_flood_targets(n, m.src);
            assert(out[i].dest == ts[i]);
        } else {
            reveal_strlit("broadcast");
            reveal_strlit("init_ok");
            reveal_strlit("topology_ok");
            reveal_strlit("broadcast_ok");
            reveal_strlit("read_ok");
            assert(answered(kind_spec(m.body.msg_type)));
            assert(reply_type(kind_spec(m.body.msg_type)).len() != "broadcast"@.len());
        }
    }
}

/// Each request with a non-zero message id that the node answers gets
/// exactly one envelope correlated with it, and that one goes to its sender.
pub proof fn lemma_reply_correlation(n: NodeModel, m: MessageView, out: Seq<MessageView>)
    requires
        outputs_ok(n, m, out),
        m.body.msg_id > 0,
        answered(kind_spec(m.body.msg_type)),
        handle_error(n, m) is None,
    ensures
        exists|i: int|
            0 <= i < out.len() && (#[trigger] out[i]).body.in_reply_to == m.body.msg_id
                && out[i].dest == m.src && forall|j: int|
                0 <= j < out.len() && (#[trigger] out[j]).body.in_reply_to == m.body.msg_id
                    ==> j == i,
{
    let g = gossip(n, m);
    let k = g.len() as int;
    assert forall|j: int|
        0 <= j < out.len() && (#[trigger] out[j]).body.in_reply_to == m.body.msg_id implies j
        == k by {
        if j < k {
            assert(out[j] == out.take(k)[j]);
        }
    }
    assert(out[k].body.in_reply_to == m.body.msg_id);
}

/// An envelope with message id zero gets no reply: nothing goes back to its
/// sender, and nothing sent is correlated with a request.
pub proof fn lemma_no_reply_without_id(n: NodeModel, m: MessageView, out: Seq<MessageView>)
    requires
        outputs_ok(n, m, out),
        m.body.msg_id == 0,
    ensures
        forall|i: int|
            0 <= i < out.len() ==> (#[trigger] out[i]).dest != m.src && out[i].body.in_reply_to
                == 0,
{
    lemma_flood_skips_self_and_sender(n, m, out);
    assert forall|i: int| 0 <= i < out.len() implies (#[trigger] out[i]).dest != m.src
        && out[i].body.in_reply_to == 0 by {
        lemma_flood_targets(n, m.src);
    }
}

} // verus!
