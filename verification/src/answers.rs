//! What a node answers its owner, told by what it holds.

#[allow(unused_imports)]
use crate::contact::Contact;
#[allow(unused_imports)]
use crate::conversation::Snapshot;
#[allow(unused_imports)]
use crate::convergence::in_order_exists;
#[allow(unused_imports)]
use crate::effects::{
    history_is_complete_and_causal, stored_conversation_is_restored, unread_count_is_exact,
    unread_ids,
};
#[allow(unused_imports)]
use crate::keyed::{ascending, ascending_is_in_order, in_order};
#[allow(unused_imports)]
use crate::lifecycle::Handshake;
#[allow(unused_imports)]
use crate::links::strangers_are_nearby;
#[allow(unused_imports)]
use crate::node::Node;
#[allow(unused_imports)]
use crate::protocol::{
    action_models, Action, ActionModel, DeliveryStatus, EventModel, GroupId, GroupInfo, PeerKey,
    Wire, WireModel,
};
#[allow(unused_imports)]
use crate::ratchet::PreKeyBundle;
#[allow(unused_imports)]
use crate::reception::kept;
#[allow(unused_imports)]
use crate::state::{State, StateModel};
#[allow(unused_imports)]
use crate::sync::Message;
use vstd::prelude::*;

verus! {

/// The history of the conversation with a peer is complete and in causal order:
/// every message of it once, an earlier one before a later one.
pub proof fn history_is_answered(node: &Node, peer: &PeerKey, r: Vec<Message>)
    requires
        call_ensures(Node::conversation, (node, peer), r),
        kept(node.state@.conversations, *peer).wf(),
    ensures
        ({
            let c = kept(node.state@.conversations, *peer);
            &&& r@.len() == c.messages.len()
            &&& r@.no_duplicates()
            &&& forall|m: Message| #[trigger]
                r@.contains(m) <==> c.messages.contains_key(m.id) && c.messages[m.id] == m
            &&& forall|i: int, j: int|
                0 <= i < j < r@.len() ==> (#[trigger] r@[i]).lamport <= (#[trigger] r@[j]).lamport
        }),
{
    let c = kept(node.state@.conversations, *peer);
    assert(c =~= node.state@.convo(*peer));
    history_is_complete_and_causal(c);
}

/// The history of a group is complete and in causal order: every message of it
/// once, an earlier one before a later one.
pub proof fn group_history_is_answered(node: &Node, gid: &GroupId, r: Vec<Message>)
    requires
        call_ensures(Node::group_conversation, (node, gid), r),
        kept(node.state@.group_convos, *gid).wf(),
    ensures
        ({
            let c = kept(node.state@.group_convos, *gid);
            &&& r@.len() == c.messages.len()
            &&& r@.no_duplicates()
            &&& forall|m: Message| #[trigger]
                r@.contains(m) <==> c.messages.contains_key(m.id) && c.messages[m.id] == m
            &&& forall|i: int, j: int|
                0 <= i < j < r@.len() ==> (#[trigger] r@[i]).lamport <= (#[trigger] r@[j]).lamport
        }),
{
    let c = kept(node.state@.group_convos, *gid);
    assert(c =~= node.state@.group_convo(*gid));
    history_is_complete_and_causal(c);
}

/// The texts of a conversation are those of its history, one for each message
/// and in the same order.
pub proof fn texts_follow_the_history(
    node: &Node,
    peer: &PeerKey,
    history: Vec<Message>,
    texts: Vec<String>,
)
    requires
        call_ensures(Node::conversation, (node, peer), history),
        call_ensures(Node::conversation_bodies, (node, peer), texts),
    ensures
        texts@.len() == history@.len(),
        forall|i: int| 0 <= i < texts@.len() ==> #[trigger] texts@[i] == history@[i].body,
{
}

/// A history with how far its messages got is the history, and each message of
/// our own in it is delivered, queued or sent: delivered where the peer has named
/// it or has read up to it, queued while it waits, and sent otherwise.
pub proof fn statuses_follow_the_history(
    node: &Node,
    peer: &PeerKey,
    history: Vec<Message>,
    r: Vec<(Message, Option<DeliveryStatus>)>,
)
    requires
        call_ensures(Node::conversation, (node, peer), history),
        call_ensures(Node::conversation_with_status, (node, peer), r),
    ensures
        r@.len() == history@.len(),
        forall|i: int|
            0 <= i < r@.len() ==> {
                let s = node.state@;
                let (m, status) = #[trigger] r@[i];
                let c = s.conversations[*peer];
                let got = (s.peer_have.contains_key(*peer) && s.peer_have[*peer].contains(m.id)) || (
                s.conversations.contains_key(*peer) && (m.lamport == 0 || c.read.contains_key(*peer)
                    && c.read[*peer] >= m.lamport));
                let waits = s.queued.contains_key(*peer) && s.queued[*peer].contains(m.id);
                &&& m == history@[i]
                &&& status is None <==> m.author != node.id
                &&& status == Some(DeliveryStatus::Delivered) <==> m.author == node.id && got
                &&& status == Some(DeliveryStatus::Queued) <==> m.author == node.id && !got && waits
                &&& status == Some(DeliveryStatus::Sent) <==> m.author == node.id && !got && !waits
            },
{
}

/// The unread count of a conversation is the number of messages of others in it
/// that are later than our own watermark.
pub proof fn unread_is_answered(node: &Node, peer: &PeerKey, r: usize)
    requires
        call_ensures(Node::unread_direct, (node, peer), r),
        kept(node.state@.conversations, *peer).wf(),
    ensures
        r == unread_ids(kept(node.state@.conversations, *peer), node.id).len(),
{
    let c = kept(node.state@.conversations, *peer);
    assert(c =~= node.state@.convo(*peer));
    unread_count_is_exact(c, node.id);
}

/// The unread count of a group is the number of messages of others in it that
/// are later than our own watermark.
pub proof fn unread_of_a_group_is_answered(node: &Node, gid: &GroupId, r: usize)
    requires
        call_ensures(Node::unread_group, (node, gid), r),
        kept(node.state@.group_convos, *gid).wf(),
    ensures
        r == unread_ids(kept(node.state@.group_convos, *gid), node.id).len(),
{
    let c = kept(node.state@.group_convos, *gid);
    assert(c =~= node.state@.group_convo(*gid));
    unread_count_is_exact(c, node.id);
}

/// The peers nearby are those that are visible and no contacts, each once.
pub proof fn nearby_is_answered(node: &Node, r: Vec<PeerKey>)
    requires
        call_ensures(Node::nearby, (node,), r),
        node.state@.discovered.finite(),
    ensures
        r@.no_duplicates(),
        ascending(r@),
        forall|p: PeerKey| #[trigger]
            r@.contains(p) <==> node.state@.discovered.contains(p)
                && !node.state@.contacts.contains_key(p),
{
    strangers_are_nearby(node.state@);
}

/// The peers that are visible, and those that are connected, are all listed,
/// each once.
pub proof fn visible_and_connected_are_answered(
    node: &Node,
    visible: Vec<PeerKey>,
    connected: Vec<PeerKey>,
)
    requires
        call_ensures(Node::discovered_peers, (node,), visible),
        call_ensures(Node::connected_peers, (node,), connected),
        node.state@.discovered.finite(),
        node.state@.conns.dom().finite(),
    ensures
        visible@.no_duplicates(),
        ascending(visible@),
        forall|p: PeerKey| #[trigger]
            visible@.contains(p) <==> node.state@.discovered.contains(p),
        connected@.no_duplicates(),
        ascending(connected@),
        forall|p: PeerKey| #[trigger]
            connected@.contains(p) <==> node.state@.conns.contains_key(p),
{
    in_order_exists(node.state@.discovered);
    in_order_exists(node.state@.conns.dom());
    ascending_is_in_order(visible@);
    ascending_is_in_order(connected@);
    assert forall|p: PeerKey| #[trigger] visible@.contains(p) <==> node.state@.discovered.contains(
        p,
    ) by {
        assert(visible@.contains(p) == visible@.to_set().contains(p));
    }
    assert forall|p: PeerKey| #[trigger] connected@.contains(p) <==> node.state@.conns.contains_key(
        p,
    ) by {
        assert(connected@.contains(p) == connected@.to_set().contains(p));
    }
}

/// Every contact is listed, once, and nothing else is.
pub proof fn contacts_are_answered(node: &Node, r: Vec<Contact>)
    requires
        call_ensures(Node::contacts, (node,), r),
        node.state@.contacts.dom().finite(),
        forall|p: PeerKey| #[trigger]
            node.state@.contacts.contains_key(p) ==> node.state@.contacts[p].peer == p,
    ensures
        r@.len() == node.state@.contacts.len(),
        forall|i: int|
            0 <= i < r@.len() ==> node.state@.contacts.contains_key((#[trigger] r@[i]).peer)
                && node.state@.contacts[r@[i].peer] == r@[i]@,
        forall|i: int, j: int|
            0 <= i < j < r@.len() ==> (#[trigger] r@[i]).peer != (#[trigger] r@[j]).peer,
        forall|p: PeerKey| #[trigger]
            node.state@.contacts.contains_key(p) ==> exists|i: int|
                0 <= i < r@.len() && (#[trigger] r@[i]).peer == p,
{
    let ids = in_order(node.state@.contacts.dom());
    in_order_exists(node.state@.contacts.dom());
    ascending_is_in_order(ids);
    let listed = r@.map_values(|c: Contact| c@);
    assert(listed == ids.map_values(|p: PeerKey| node.state@.contacts[p]));
    assert(listed.len() == r@.len());
    assert forall|i: int| 0 <= i < r@.len() implies (#[trigger] r@[i]).peer == ids[i] && r@[i]@
        == node.state@.contacts[ids[i]] && node.state@.contacts.contains_key(ids[i]) by {
        assert(listed[i] == r@[i]@);
        assert(ids.to_set().contains(ids[i]));
    }
    assert forall|p: PeerKey| #[trigger] node.state@.contacts.contains_key(p) implies exists|i: int|
        0 <= i < r@.len() && (#[trigger] r@[i]).peer == p by {
        assert(ids.to_set().contains(p));
        let i = choose|i: int| 0 <= i < ids.len() && ids[i] == p;
        assert(r@[i].peer == p);
    }
}

/// Every group is listed, once, and nothing else is.
pub proof fn groups_are_answered(node: &Node, r: Vec<GroupInfo>)
    requires
        call_ensures(Node::groups, (node,), r),
        node.state@.groups.dom().finite(),
        forall|g: GroupId| #[trigger]
            node.state@.groups.contains_key(g) ==> node.state@.groups[g].id == g,
    ensures
        r@.len() == node.state@.groups.len(),
        forall|i: int|
            0 <= i < r@.len() ==> node.state@.groups.contains_key((#[trigger] r@[i]).id)
                && node.state@.groups[r@[i].id] == r@[i]@,
        forall|i: int, j: int|
            0 <= i < j < r@.len() ==> (#[trigger] r@[i]).id != (#[trigger] r@[j]).id,
        forall|g: GroupId| #[trigger]
            node.state@.groups.contains_key(g) ==> exists|i: int|
                0 <= i < r@.len() && (#[trigger] r@[i]).id == g,
{
    let ids = in_order(node.state@.groups.dom());
    in_order_exists(node.state@.groups.dom());
    ascending_is_in_order(ids);
    let listed = r@.map_values(|g: GroupInfo| g@);
    assert(listed == ids.map_values(|g: GroupId| node.state@.groups[g]));
    assert(listed.len() == r@.len());
    assert forall|i: int| 0 <= i < r@.len() implies (#[trigger] r@[i]).id == ids[i] && r@[i]@
        == node.state@.groups[ids[i]] && node.state@.groups.contains_key(ids[i]) by {
        assert(listed[i] == r@[i]@);
        assert(ids.to_set().contains(ids[i]));
    }
    assert forall|g: GroupId| #[trigger] node.state@.groups.contains_key(g) implies exists|i: int|
        0 <= i < r@.len() && (#[trigger] r@[i]).id == g by {
        assert(ids.to_set().contains(g));
        let i = choose|i: int| 0 <= i < ids.len() && ids[i] == g;
        assert(r@[i].id == g);
    }
}

/// The snapshot of a conversation restores what the conversation holds, and
/// there is one just where there is a conversation.
pub proof fn snapshot_is_answered(node: &Node, peer: &PeerKey, r: Option<Snapshot>)
    requires
        call_ensures(Node::convo_snapshot, (node, peer), r),
        node.state@.conversations.contains_key(*peer) ==> node.state@.conversations[*peer].wf(),
    ensures
        r is Some <==> node.state@.conversations.contains_key(*peer),
        r is Some ==> {
            let c = node.state@.conversations[*peer];
            let d = r->0.restores();
            &&& d.messages == c.messages
            &&& d.reactions == c.reactions
            &&& d.read == c.read
            &&& d.ordered() == c.ordered()
        },
{
    if r is Some {
        stored_conversation_is_restored(r->0, node.state@.conversations[*peer]);
    }
}

/// The snapshot of a group conversation restores what the conversation holds,
/// and there is one just where there is a conversation.
pub proof fn group_snapshot_is_answered(node: &Node, gid: &GroupId, r: Option<Snapshot>)
    requires
        call_ensures(Node::group_convo_snapshot, (node, gid), r),
        node.state@.group_convos.contains_key(*gid) ==> node.state@.group_convos[*gid].wf(),
    ensures
        r is Some <==> node.state@.group_convos.contains_key(*gid),
        r is Some ==> {
            let c = node.state@.group_convos[*gid];
            let d = r->0.restores();
            &&& d.messages == c.messages
            &&& d.reactions == c.reactions
            &&& d.read == c.read
            &&& d.ordered() == c.ordered()
        },
{
    if r is Some {
        stored_conversation_is_restored(r->0, node.state@.group_convos[*gid]);
    }
}

/// A frame can be sent just to a peer that is connected, and goes to that peer.
pub proof fn frames_go_to_the_connected(
    node: &Node,
    peer: PeerKey,
    wire: Wire,
    r: Result<Action, String>,
)
    requires
        call_ensures(Node::send_to, (node, peer, wire), r),
    ensures
        r is Ok <==> node.state@.conns.contains_key(peer),
        r is Ok ==> r->Ok_0@ == (ActionModel::SendWire { peer, wire: wire@ }),
{
}

/// That we are typing, or are there or not, is told just to a peer that is
/// connected.
pub proof fn presence_goes_to_the_connected(
    node: &Node,
    peer: PeerKey,
    online: bool,
    typing: Result<Action, String>,
    presence: Result<Action, String>,
)
    requires
        call_ensures(Node::notify_typing, (node, peer), typing),
        call_ensures(Node::set_presence, (node, peer, online), presence),
    ensures
        typing is Ok <==> node.state@.conns.contains_key(peer),
        presence is Ok <==> node.state@.conns.contains_key(peer),
        typing is Ok ==> typing->Ok_0@ == (ActionModel::SendWire { peer, wire: WireModel::Typing }),
        presence is Ok ==> presence->Ok_0@ == (ActionModel::SendWire {
            peer,
            wire: WireModel::Presence { online },
        }),
{
}

/// A peer that becomes visible is visible from then on, and the owner is told of
/// it once. A contact that appears is dialled unless it is connected. We are
/// never visible to ourselves.
pub proof fn peers_become_visible(
    state: &mut State,
    me: &PeerKey,
    peer: PeerKey,
    r: (bool, Vec<Action>),
)
    requires
        call_ensures(State::peer_discovered, (state, me, peer), r),
    ensures
        ({
            let s = old(state)@;
            let t = final(state)@;
            let told = action_models(r.1@);
            &&& peer != *me ==> t.discovered.contains(peer)
            &&& forall|p: PeerKey|
                p != peer ==> #[trigger] t.discovered.contains(p) == s.discovered.contains(p)
            &&& peer == *me ==> t == s && !r.0
            &&& t == (StateModel { discovered: t.discovered, ..s })
            &&& told.contains(ActionModel::Emit(EventModel::PeerDiscovered(peer))) <==> peer != *me
                && !s.discovered.contains(peer)
            &&& told.len() <= 1
            &&& r.0 ==> s.contacts.contains_key(peer) && !s.conns.contains_key(peer)
            &&& told.len() == 1 && s.contacts.contains_key(peer) && !s.conns.contains_key(peer)
                ==> r.0
            &&& told.len() == 0 ==> !r.0
        }),
{
    let s = old(state)@;
    let told = action_models(r.1@);
    if peer != *me && !s.discovered.contains(peer) {
        assert(told[0] == ActionModel::Emit(EventModel::PeerDiscovered(peer)));
    }
}

/// A peer that is gone from the network is no longer visible; nothing else
/// changes.
pub proof fn peers_go_out_of_sight(state: &mut State, peer: &PeerKey)
    requires
        call_ensures(State::peer_expired, (state, peer), ()),
    ensures
        !final(state)@.discovered.contains(*peer),
        forall|p: PeerKey|
            p != *peer ==> #[trigger] final(state)@.discovered.contains(p) == old(
                state,
            )@.discovered.contains(p),
        final(state)@ == (StateModel { discovered: final(state)@.discovered, ..old(state)@ }),
{
}

/// A connection that is registered is the live one, and when it closes, the peer
/// is connected no more, while everything that was said stays. The owner is told
/// of both.
pub proof fn connections_come_and_go(
    opened: &mut State,
    closed: &mut State,
    me: &PeerKey,
    peer: PeerKey,
    bundle: PreKeyBundle,
    now: u64,
    later: u64,
    r: (u64, Vec<Action>),
    told: Vec<Action>,
)
    requires
        old(opened)@.next_gen < u64::MAX,
        call_ensures(State::register, (opened, me, peer, bundle, now), r),
        call_ensures(State::connection_closed, (closed, peer, r.0, later), told),
        old(closed)@ == final(opened)@,
    ensures
        ({
            let s = old(opened)@;
            let t = final(opened)@;
            let u = final(closed)@;
            &&& t.conns.contains_key(peer) && t.conns[peer] == r.0
            &&& forall|p: PeerKey| #[trigger]
                s.conns.contains_key(p) && s.conns[p] < s.next_gen ==> s.conns[p] != r.0
            &&& !u.conns.contains_key(peer)
            &&& u.contacts.contains_key(peer) && u.contacts[peer].last_seen == later
            &&& kept(u.conversations, peer) == kept(s.conversations, peer)
            &&& u.queued == s.queued
            &&& u.peer_have == s.peer_have
            &&& u.group_convos == s.group_convos
            &&& action_models(r.1@).contains(ActionModel::Emit(EventModel::PeerConnected(peer)))
            &&& action_models(told@).contains(
                ActionModel::Emit(EventModel::PeerDisconnected(peer)),
            )
            &&& action_models(told@).contains(ActionModel::SaveContact(peer))
        }),
{
    let s = old(opened)@;
    crate::links::connection_becomes_live(s, *me, peer, bundle, now);
    crate::links::connection_makes_a_contact(s, *me, peer, bundle, now);
    crate::links::closing_keeps_what_was_said(final(opened)@, peer, r.0, later);
    let acts = action_models(told@);
    assert(acts[0] == ActionModel::SaveContact(peer));
    assert(acts[1] == ActionModel::Emit(EventModel::PeerDisconnected(peer)));
}

/// What overtakes the greeting of a peer is kept in its order, and the greeting
/// ends the handshake with the bundle that is in it.
pub proof fn early_frames_are_kept(
    handshake: &mut Handshake,
    frame: Option<Wire>,
    r: Option<PreKeyBundle>,
)
    requires
        call_ensures(Handshake::on_frame, (handshake, frame), r),
    ensures
        r is Some <==> frame matches Some(Wire::Hello { bundle }),
        r is Some ==> frame->0->Hello_bundle == r->0,
        frame is Some && r is None ==> final(handshake).early@ == old(handshake).early@.push(
            frame->0,
        ),
        frame is None || r is Some ==> final(handshake).early@ == old(handshake).early@,
{
}

} // verus!
