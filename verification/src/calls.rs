//! What the calls of a node do, told by what goes in and what comes out.

#[allow(unused_imports)]
use crate::contact::{Contact, ContactModel};
#[allow(unused_imports)]
use crate::conversation::Snapshot;
#[allow(unused_imports)]
use crate::effects::{last_time_is_the_latest, own_message_stays};
#[allow(unused_imports)]
use crate::identity::SignedProfile;
#[allow(unused_imports)]
use crate::node::Node;
#[allow(unused_imports)]
use crate::outgoing::{
    everyone_connected_is_sent_to, everyone_else_is_sent_to, everyone_named_is_invited, sending,
};
#[allow(unused_imports)]
use crate::protocol::{
    action_models, payload_models, signed_model, Action, ActionModel, DeliveryStatus, EventModel,
    GroupId, GroupInfo, Payload, PayloadModel, PeerKey, SyncScope, WireModel,
};
#[allow(unused_imports)]
use crate::queries::unread_count;
#[allow(unused_imports)]
use crate::ratchet::MessagingAccount;
#[allow(unused_imports)]
use crate::reception::kept;
#[allow(unused_imports)]
use crate::sending::{was_sent, SendAttempt};
#[allow(unused_imports)]
use crate::startup::{
    every_contact_is_restored, every_conversation_is_restored, every_group_is_restored,
};
#[allow(unused_imports)]
use crate::state::{State, StateModel};
#[allow(unused_imports)]
use crate::sync::{Message, MessageId, MessageKind};
use vstd::prelude::*;

verus! {

/// A text that is sent is a new message of our own in the conversation with the
/// peer, later than everything in it, and is stored; nothing else changes.
pub proof fn sent_text_is_held(
    node: &mut Node,
    peer: PeerKey,
    body: &str,
    now: u64,
    r: (Message, Vec<Action>),
)
    requires
        call_ensures(Node::send_text, (node, peer, body, now), r),
        kept(old(node).state@.conversations, peer).wf(),
        kept(old(node).state@.conversations, peer).lamport < u64::MAX,
    ensures
        ({
            let s = old(node).state@;
            let t = final(node).state@;
            let before = kept(s.conversations, peer);
            let after = t.conversations[peer];
            let m = r.0;
            &&& m.author == old(node).id
            &&& m.body@ == body@
            &&& m.sent_at == now
            &&& m.kind == MessageKind::Text
            &&& t.conversations.contains_key(peer)
            &&& after.wf()
            &&& after.messages.contains_key(m.id) && after.messages[m.id] == m
            &&& after.messages.remove(m.id) == before.messages.remove(m.id)
            &&& after.lamport == m.lamport
            &&& m.lamport > before.lamport
            &&& forall|id: MessageId| #[trigger]
                before.messages.contains_key(id) ==> before.messages[id].lamport < m.lamport
            &&& after.reactions == before.reactions
            &&& after.read == before.read
            &&& t.conversations.remove(peer) == s.conversations.remove(peer)
            &&& t == (StateModel { conversations: t.conversations, ..s })
            &&& action_models(r.1@).contains(ActionModel::SaveConvo(peer))
            &&& r.1@.len() == 1
            &&& final(node).id == old(node).id
            &&& final(node).messaging == old(node).messaging
        }),
{
    let s = old(node).state@;
    let t = final(node).state@;
    let m = r.0;
    let before = kept(s.conversations, peer);
    assert(before =~= s.convo(peer));
    own_message_stays(before, m);
    assert(t.conversations[peer].messages.remove(m.id) =~= before.messages.remove(m.id));
    assert(t.conversations.remove(peer) =~= s.conversations.remove(peer));
    assert(action_models(r.1@)[0] == ActionModel::SaveConvo(peer));
}

/// A text that could not be written to a connection is queued for its peer, and
/// one that could is not; the owner is told which.
pub proof fn settled_text_is_sent_or_queued(
    node: &mut Node,
    peer: PeerKey,
    id: MessageId,
    sent: bool,
    r: (DeliveryStatus, Vec<Action>),
)
    requires
        call_ensures(Node::settle_send, (node, peer, id, sent), r),
    ensures
        ({
            let s = old(node).state@;
            let t = final(node).state@;
            &&& r.0 == DeliveryStatus::Sent <==> sent
            &&& r.0 == DeliveryStatus::Queued <==> !sent
            &&& sent ==> t == s
            &&& !sent ==> t.queued.contains_key(peer) && t.queued[peer].contains(id)
            &&& !sent ==> forall|x: MessageId|
                x != id ==> (#[trigger] t.queued[peer].contains(x) <==> s.queued.contains_key(peer)
                    && s.queued[peer].contains(x))
            &&& t.queued.remove(peer) == s.queued.remove(peer)
            &&& t == (StateModel { queued: t.queued, ..s })
            &&& action_models(r.1@).contains(
                ActionModel::Emit(EventModel::MessageStatus { peer, id, status: r.0 }),
            )
            &&& r.1@.len() == 1
        }),
{
    let s = old(node).state@;
    let t = final(node).state@;
    assert(t.queued.remove(peer) =~= s.queued.remove(peer));
    assert(action_models(r.1@)[0] == ActionModel::Emit(
        EventModel::MessageStatus { peer, id, status: r.0 },
    ));
}

/// A new group is kept with its name, with us as its creator, and with those
/// that were named and us as its members. It has a conversation, it is stored,
/// and everybody else in it is invited, once.
pub proof fn new_group_is_kept_and_announced(
    node: &mut Node,
    name: String,
    members: &[PeerKey],
    r: (GroupId, Vec<Action>),
)
    requires
        call_ensures(Node::create_group, (node, name, members), r),
    ensures
        ({
            let s = old(node).state@;
            let t = final(node).state@;
            let me = old(node).id;
            let gid = r.0;
            let info = t.groups[gid];
            let acts = action_models(r.1@);
            let invite = PayloadModel::GroupInvite(info);
            &&& t.groups.contains_key(gid)
            &&& info.id == gid
            &&& info.name == name@
            &&& info.creator == me
            &&& info.members.no_duplicates()
            &&& forall|p: PeerKey| #[trigger]
                info.members.contains(p) <==> members@.contains(p) || p == me
            &&& t.groups.remove(gid) == s.groups.remove(gid)
            &&& t.group_convos.contains_key(gid)
            &&& t.group_convos[gid] == kept(s.group_convos, gid)
            &&& t.group_convos.remove(gid) == s.group_convos.remove(gid)
            &&& t == (StateModel { groups: t.groups, group_convos: t.group_convos, ..s })
            &&& acts.contains(ActionModel::SaveGroup(gid))
            &&& acts.contains(ActionModel::SaveGroupConvo(gid))
            &&& forall|p: PeerKey|
                acts.contains(#[trigger] sending(p, invite)) <==> members@.contains(p) && p != me
            &&& acts.no_duplicates()
        }),
{
    let s = old(node).state@;
    let t = final(node).state@;
    let me = old(node).id;
    let gid = r.0;
    let info = t.groups[gid];
    let acts = action_models(r.1@);
    let invite = PayloadModel::GroupInvite(info);
    everyone_named_is_invited(me, members@, invite);
    assert(t.groups.remove(gid) =~= s.groups.remove(gid));
    assert(t.group_convos.remove(gid) =~= s.group_convos.remove(gid));
    assert(t.group_convos[gid] =~= kept(s.group_convos, gid));
    let sends = crate::sending::fan_out(me, info.members, invite);
    everyone_else_is_sent_to(me, info.members, invite);
    sent_after_storing(
        seq![ActionModel::SaveGroup(gid), ActionModel::SaveGroupConvo(gid)],
        sends,
        acts,
        invite,
    );
    assert(acts[0] == ActionModel::SaveGroup(gid));
    assert(acts[1] == ActionModel::SaveGroupConvo(gid));
}

/// What is sent after something was stored is sent all the same, and nothing
/// else is sent.
proof fn sent_after_storing(
    first: Seq<ActionModel>,
    sends: Seq<ActionModel>,
    acts: Seq<ActionModel>,
    payload: PayloadModel,
)
    requires
        acts == first + sends,
        forall|i: int| 0 <= i < first.len() ==> !((#[trigger] first[i]) is Send),
        forall|i: int| 0 <= i < sends.len() ==> (#[trigger] sends[i]) is Send,
        first.no_duplicates(),
        sends.no_duplicates(),
    ensures
        forall|p: PeerKey|
            acts.contains(#[trigger] sending(p, payload)) == sends.contains(sending(p, payload)),
        acts.no_duplicates(),
{
    assert forall|p: PeerKey|
        acts.contains(#[trigger] sending(p, payload)) == sends.contains(sending(p, payload)) by {
        let a = sending(p, payload);
        if acts.contains(a) {
            let i = choose|i: int| 0 <= i < acts.len() && acts[i] == a;
            if i < first.len() {
                assert(first[i] == a);
            } else {
                assert(sends[i - first.len()] == a);
            }
        }
        if sends.contains(a) {
            let i = choose|i: int| 0 <= i < sends.len() && sends[i] == a;
            assert(acts[first.len() + i] == a);
        }
    }
    assert forall|i: int, j: int| 0 <= i < acts.len() && 0 <= j < acts.len() && i != j implies acts[i]
        != acts[j] by {
        let n = first.len() as int;
        if i < n {
            assert(acts[i] == first[i]);
        } else {
            assert(acts[i] == sends[i - n]);
        }
        if j < n {
            assert(acts[j] == first[j]);
        } else {
            assert(acts[j] == sends[j - n]);
        }
    }
}

/// A text for a group that we know is a new message of our own in its
/// conversation, later than everything in it. It is stored and sent to every
/// other member, once, and to nobody else. Nothing else changes.
pub proof fn group_text_is_held_and_sent(
    node: &mut Node,
    group: GroupId,
    body: &str,
    now: u64,
    r: Option<(Message, Vec<Action>)>,
)
    requires
        call_ensures(Node::send_group_text, (node, group, body, now), r),
        old(node).state@.groups.contains_key(group),
        old(node).state@.groups[group].members.no_duplicates(),
        kept(old(node).state@.group_convos, group).wf(),
        kept(old(node).state@.group_convos, group).lamport < u64::MAX,
    ensures
        r is Some,
        ({
            let s = old(node).state@;
            let t = final(node).state@;
            let me = old(node).id;
            let before = kept(s.group_convos, group);
            let after = t.group_convos[group];
            let m = (r->0).0;
            let acts = action_models((r->0).1@);
            let payload = PayloadModel::GroupMessage { group, message: m };
            &&& m.author == me
            &&& m.body@ == body@
            &&& m.sent_at == now
            &&& m.kind == MessageKind::Text
            &&& t.group_convos.contains_key(group)
            &&& after.wf()
            &&& after.messages.contains_key(m.id) && after.messages[m.id] == m
            &&& after.messages.remove(m.id) == before.messages.remove(m.id)
            &&& after.lamport == m.lamport
            &&& m.lamport > before.lamport
            &&& after.reactions == before.reactions
            &&& after.read == before.read
            &&& t.group_convos.remove(group) == s.group_convos.remove(group)
            &&& t == (StateModel { group_convos: t.group_convos, ..s })
            &&& acts.contains(ActionModel::SaveGroupConvo(group))
            &&& forall|p: PeerKey|
                acts.contains(#[trigger] sending(p, payload)) <==> s.groups[group].members.contains(p)
                    && p != me
            &&& acts.no_duplicates()
        }),
{
    let s = old(node).state@;
    let t = final(node).state@;
    let me = old(node).id;
    let m = (r->0).0;
    let before = kept(s.group_convos, group);
    assert(before =~= s.group_convo(group));
    own_message_stays(before, m);
    assert(t.group_convos[group].messages.remove(m.id) =~= before.messages.remove(m.id));
    assert(t.group_convos.remove(group) =~= s.group_convos.remove(group));
    let acts = action_models((r->0).1@);
    let payload = PayloadModel::GroupMessage { group, message: m };
    let members = s.groups[group].members;
    everyone_else_is_sent_to(me, members, payload);
    sent_after_storing(
        seq![ActionModel::SaveGroupConvo(group)],
        crate::sending::fan_out(me, members, payload),
        acts,
        payload,
    );
    assert(acts[0] == ActionModel::SaveGroupConvo(group));
}

/// A text for a group that we do not know goes nowhere.
pub proof fn unknown_groups_get_no_text(
    node: &mut Node,
    group: GroupId,
    body: &str,
    now: u64,
    r: Option<(Message, Vec<Action>)>,
)
    requires
        call_ensures(Node::send_group_text, (node, group, body, now), r),
        !old(node).state@.groups.contains_key(group),
    ensures
        r is None,
        final(node).state@ == old(node).state@,
{
}

/// Marking the conversation with a peer as read leaves nothing of it unread, and
/// tells the peer the time of the last message; nothing else changes. Where there
/// is no conversation nothing happens.
pub proof fn reading_leaves_nothing_unread(node: &mut Node, peer: PeerKey, r: Vec<Action>)
    requires
        call_ensures(Node::mark_read_direct, (node, peer), r),
        old(node).state@.conversations.contains_key(peer) ==> old(
            node,
        ).state@.conversations[peer].wf(),
    ensures
        ({
            let s = old(node).state@;
            let t = final(node).state@;
            let me = old(node).id;
            let acts = action_models(r@);
            let before = s.conversations[peer];
            let after = t.conversations[peer];
            if s.conversations.contains_key(peer) {
                &&& t.conversations.contains_key(peer)
                &&& unread_count(after, me) == 0
                &&& after.messages == before.messages
                &&& after.reactions == before.reactions
                &&& after.lamport == before.lamport
                &&& after.read.remove(me) == before.read.remove(me)
                &&& t.conversations.remove(peer) == s.conversations.remove(peer)
                &&& t == (StateModel { conversations: t.conversations, ..s })
                &&& acts.len() == 2
                &&& acts[0] == ActionModel::SaveConvo(peer)
                &&& acts[1] matches ActionModel::SendWire { peer: to, wire } && to == peer && {
                    wire matches WireModel::Read { up_to } && {
                        &&& forall|id: MessageId| #[trigger]
                            before.messages.contains_key(id) ==> before.messages[id].lamport <= up_to
                        &&& after.read[me] >= up_to
                        &&& up_to <= before.lamport
                    }
                }
            } else {
                t == s && acts.len() == 0
            }
        }),
{
    let s = old(node).state@;
    let t = final(node).state@;
    let me = old(node).id;
    if s.conversations.contains_key(peer) {
        let c = s.conversations[peer];
        crate::laws::marking_read_leaves_nothing_unread(c, me);
        last_time_is_the_latest(c);
        assert(t.conversations[peer].read.remove(me) =~= c.read.remove(me));
        assert(t.conversations.remove(peer) =~= s.conversations.remove(peer));
    }
}

/// Marking the conversation of a group as read leaves nothing of it unread;
/// nothing else changes, and nobody is told. Where there is no conversation
/// nothing happens.
pub proof fn reading_a_group_leaves_nothing_unread(node: &mut Node, gid: GroupId, r: Vec<Action>)
    requires
        call_ensures(Node::mark_read_group, (node, gid), r),
        old(node).state@.group_convos.contains_key(gid) ==> old(
            node,
        ).state@.group_convos[gid].wf(),
    ensures
        ({
            let s = old(node).state@;
            let t = final(node).state@;
            let me = old(node).id;
            let acts = action_models(r@);
            let before = s.group_convos[gid];
            let after = t.group_convos[gid];
            if s.group_convos.contains_key(gid) {
                &&& t.group_convos.contains_key(gid)
                &&& unread_count(after, me) == 0
                &&& after.messages == before.messages
                &&& after.reactions == before.reactions
                &&& after.lamport == before.lamport
                &&& after.read.remove(me) == before.read.remove(me)
                &&& t.group_convos.remove(gid) == s.group_convos.remove(gid)
                &&& t == (StateModel { group_convos: t.group_convos, ..s })
                &&& acts.len() == 1
                &&& acts[0] == ActionModel::SaveGroupConvo(gid)
            } else {
                t == s && acts.len() == 0
            }
        }),
{
    let s = old(node).state@;
    let t = final(node).state@;
    let me = old(node).id;
    if s.group_convos.contains_key(gid) {
        let c = s.group_convos[gid];
        crate::laws::marking_read_leaves_nothing_unread(c, me);
        assert(t.group_convos[gid].read.remove(me) =~= c.read.remove(me));
        assert(t.group_convos.remove(gid) =~= s.group_convos.remove(gid));
    }
}

/// The name that the owner chose is that of the contact from then on, and
/// nothing else changes. Where there is no such contact nothing happens.
pub proof fn chosen_name_is_kept(
    node: &mut Node,
    peer: PeerKey,
    alias: Option<String>,
    r: Vec<Action>,
)
    requires
        call_ensures(Node::set_alias, (node, peer, alias), r),
    ensures
        ({
            let s = old(node).state@;
            let t = final(node).state@;
            let acts = action_models(r@);
            let c = t.contacts[peer];
            if s.contacts.contains_key(peer) {
                &&& t.contacts.contains_key(peer)
                &&& alias is Some <==> c.alias is Some
                &&& alias is Some ==> c.alias->0 == alias->0@
                &&& alias is Some && alias->0@.len() > 0 ==> c.name() == Some(alias->0@)
                &&& c == (ContactModel { alias: c.alias, ..s.contacts[peer] })
                &&& t.contacts.remove(peer) == s.contacts.remove(peer)
                &&& t == (StateModel { contacts: t.contacts, ..s })
                &&& acts.len() == 2
                &&& acts.contains(ActionModel::SaveContact(peer))
                &&& acts.contains(ActionModel::Emit(EventModel::ContactUpdated(peer)))
            } else {
                t == s && acts.len() == 0
            }
        }),
{
    let s = old(node).state@;
    let t = final(node).state@;
    let acts = action_models(r@);
    if s.contacts.contains_key(peer) {
        assert(t.contacts.remove(peer) =~= s.contacts.remove(peer));
        assert(acts[0] == ActionModel::SaveContact(peer));
        assert(acts[1] == ActionModel::Emit(EventModel::ContactUpdated(peer)));
    }
}

/// A key that waits is pinned when the owner accepts it, and nothing waits any
/// more; nothing else changes.
pub proof fn accepted_key_is_pinned(node: &mut Node, peer: PeerKey, r: Vec<Action>)
    requires
        call_ensures(Node::accept_new_key, (node, peer), r),
    ensures
        ({
            let s = old(node).state@;
            let t = final(node).state@;
            let acts = action_models(r@);
            let c = s.contacts[peer];
            let d = t.contacts[peer];
            if s.contacts.contains_key(peer) {
                &&& t.contacts.contains_key(peer)
                &&& d.pending_msg_key is None
                &&& d.pinned_msg_key == (if c.pending_msg_key is Some {
                    c.pending_msg_key
                } else {
                    c.pinned_msg_key
                })
                &&& d.peer == c.peer
                &&& d.profile == c.profile
                &&& d.alias == c.alias
                &&& d.last_seen == c.last_seen
                &&& d.added_at == c.added_at
                &&& t.contacts.remove(peer) == s.contacts.remove(peer)
                &&& t == (StateModel { contacts: t.contacts, ..s })
                &&& acts.len() == 2
                &&& acts.contains(ActionModel::SaveContact(peer))
                &&& acts.contains(ActionModel::Emit(EventModel::ContactUpdated(peer)))
            } else {
                t == s && acts.len() == 0
            }
        }),
{
    let s = old(node).state@;
    let t = final(node).state@;
    let acts = action_models(r@);
    if s.contacts.contains_key(peer) {
        assert(t.contacts.remove(peer) =~= s.contacts.remove(peer));
        assert(acts[0] == ActionModel::SaveContact(peer));
        assert(acts[1] == ActionModel::Emit(EventModel::ContactUpdated(peer)));
    }
}

/// A contact that is removed takes everything with it that is kept for that
/// peer, and nothing that is kept for another; groups stay. The vault forgets it
/// too, and the owner is told.
pub proof fn removed_contact_is_forgotten(
    node: &mut Node,
    peer: PeerKey,
    other: PeerKey,
    r: Vec<Action>,
)
    requires
        call_ensures(Node::remove_contact, (node, peer), r),
        other != peer,
    ensures
        ({
            let s = old(node).state@;
            let t = final(node).state@;
            let acts = action_models(r@);
            &&& !t.contacts.contains_key(peer)
            &&& !t.conversations.contains_key(peer)
            &&& !t.conns.contains_key(peer)
            &&& !t.sessions.contains_key(peer)
            &&& !t.inbound_sessions.contains_key(peer)
            &&& !t.bundles.contains_key(peer)
            &&& !t.pending_post_connect.contains(peer)
            &&& !t.peer_have.contains_key(peer)
            &&& !t.queued.contains_key(peer)
            &&& kept(t.conversations, other) == kept(s.conversations, other)
            &&& t.contacts.contains_key(other) == s.contacts.contains_key(other)
            &&& t.contacts[other] == s.contacts[other]
            &&& t.conns.contains_key(other) == s.conns.contains_key(other)
            &&& t.sessions.contains_key(other) == s.sessions.contains_key(other)
            &&& t.queued.contains_key(other) == s.queued.contains_key(other)
            &&& t.queued[other] == s.queued[other]
            &&& t.peer_have.contains_key(other) == s.peer_have.contains_key(other)
            &&& t.peer_have[other] == s.peer_have[other]
            &&& t.pending_post_connect.contains(other) == s.pending_post_connect.contains(other)
            &&& t.groups == s.groups
            &&& t.group_convos == s.group_convos
            &&& t.discovered == s.discovered
            &&& acts.len() == 2
            &&& acts.contains(ActionModel::DeleteContact(peer))
            &&& acts.contains(ActionModel::Emit(EventModel::ContactUpdated(peer)))
        }),
{
    let acts = action_models(r@);
    assert(acts[0] == ActionModel::DeleteContact(peer));
    assert(acts[1] == ActionModel::Emit(EventModel::ContactUpdated(peer)));
}

/// A profile that is published goes to everybody who is connected, once, and to
/// nobody else.
pub proof fn published_profile_reaches_the_connected(
    node: &Node,
    signed: &SignedProfile,
    r: Vec<Action>,
)
    requires
        call_ensures(Node::publish_profile, (node, signed), r),
        node.state@.conns.dom().finite(),
    ensures
        ({
            let acts = action_models(r@);
            let payload = PayloadModel::Profile(Some(signed@));
            &&& forall|p: PeerKey|
                acts.contains(#[trigger] sending(p, payload)) <==> node.state@.conns.contains_key(p)
            &&& acts.no_duplicates()
            &&& acts.len() == node.state@.conns.len()
        }),
{
    everyone_connected_is_sent_to(node.state@, PayloadModel::Profile(Some(signed@)));
}

/// A node that starts has everything that its vault held: every contact, every
/// conversation, every group and every group conversation, and nothing else. It
/// has no connection and no session, and the owner is told of every warning.
pub proof fn loaded_node_has_everything(
    id: PeerKey,
    messaging: MessagingAccount,
    contacts: &Vec<Contact>,
    convos: &Vec<(PeerKey, Snapshot)>,
    groups: &Vec<GroupInfo>,
    group_convos: &Vec<(GroupId, Snapshot)>,
    warnings: Vec<String>,
    r: (Node, Vec<Action>),
)
    requires
        call_ensures(
            Node::load,
            (id, messaging, contacts, convos, groups, group_convos, warnings),
            r,
        ),
        forall|i: int, j: int|
            0 <= i < j < contacts@.len() ==> (#[trigger] contacts@[i]).peer != (
            #[trigger] contacts@[j]).peer,
        forall|i: int, j: int|
            0 <= i < j < convos@.len() ==> (#[trigger] convos@[i]).0 != (#[trigger] convos@[j]).0,
        forall|i: int, j: int|
            0 <= i < j < groups@.len() ==> (#[trigger] groups@[i]).id != (#[trigger] groups@[j]).id,
        forall|i: int, j: int|
            0 <= i < j < group_convos@.len() ==> (#[trigger] group_convos@[i]).0 != (
            #[trigger] group_convos@[j]).0,
    ensures
        ({
            let t = r.0.state@;
            &&& r.0.id == id
            &&& r.0.messaging == messaging
            &&& forall|i: int|
                0 <= i < contacts@.len() ==> t.contacts.contains_key((#[trigger] contacts@[i]).peer)
                    && t.contacts[contacts@[i].peer] == contacts@[i]@
            &&& forall|p: PeerKey| #[trigger]
                t.contacts.contains_key(p) ==> exists|i: int|
                    0 <= i < contacts@.len() && (#[trigger] contacts@[i]).peer == p
            &&& forall|i: int|
                0 <= i < convos@.len() ==> t.conversations.contains_key((#[trigger] convos@[i]).0)
                    && t.conversations[convos@[i].0] == convos@[i].1.restores()
            &&& forall|p: PeerKey| #[trigger]
                t.conversations.contains_key(p) ==> exists|i: int|
                    0 <= i < convos@.len() && (#[trigger] convos@[i]).0 == p
            &&& forall|i: int|
                0 <= i < groups@.len() ==> t.groups.contains_key((#[trigger] groups@[i]).id)
                    && t.groups[groups@[i].id] == groups@[i]@
            &&& forall|g: GroupId| #[trigger]
                t.groups.contains_key(g) ==> exists|i: int|
                    0 <= i < groups@.len() && (#[trigger] groups@[i]).id == g
            &&& forall|i: int|
                0 <= i < group_convos@.len() ==> t.group_convos.contains_key(
                    (#[trigger] group_convos@[i]).0,
                ) && t.group_convos[group_convos@[i].0] == group_convos@[i].1.restores()
            &&& forall|g: GroupId| #[trigger]
                t.group_convos.contains_key(g) ==> exists|i: int|
                    0 <= i < group_convos@.len() && (#[trigger] group_convos@[i]).0 == g
            &&& t.conns.dom().is_empty()
            &&& t.sessions.dom().is_empty()
            &&& t.inbound_sessions.dom().is_empty()
            &&& t.queued.dom().is_empty()
            &&& t.peer_have.dom().is_empty()
            &&& t.discovered.is_empty()
            &&& t.startup_warnings == warnings@
            &&& r.1@.len() == warnings@.len()
            &&& forall|i: int|
                0 <= i < warnings@.len() ==> action_models(r.1@)[i] == ActionModel::Emit(
                    EventModel::StorageWarning { detail: (#[trigger] warnings@[i])@ },
                )
        }),
{
    every_contact_is_restored(contacts@);
    every_conversation_is_restored(convos@);
    every_group_is_restored(groups@);
    every_conversation_is_restored(group_convos@);
    let t = r.0.state@;
    assert(action_models(r.1@).len() == r.1@.len());
    assert forall|i: int| 0 <= i < convos@.len() implies t.conversations.contains_key(
        (#[trigger] convos@[i]).0,
    ) && t.conversations[convos@[i].0] == convos@[i].1.restores() by {
        assert forall|j: int| i < j < convos@.len() implies (#[trigger] convos@[j]).0
            != convos@[i].0 by {}
    }
    assert forall|i: int| 0 <= i < group_convos@.len() implies t.group_convos.contains_key(
        (#[trigger] group_convos@[i]).0,
    ) && t.group_convos[group_convos@[i].0] == group_convos@[i].1.restores() by {
        assert forall|j: int| i < j < group_convos@.len() implies (#[trigger] group_convos@[j]).0
            != group_convos@[i].0 by {}
    }
    assert forall|i: int| 0 <= i < contacts@.len() implies t.contacts.contains_key(
        (#[trigger] contacts@[i]).peer,
    ) && t.contacts[contacts@[i].peer] == contacts@[i]@ by {
        assert forall|j: int| i < j < contacts@.len() implies (#[trigger] contacts@[j]).peer
            != contacts@[i].peer by {}
    }
    assert forall|i: int| 0 <= i < groups@.len() implies t.groups.contains_key(
        (#[trigger] groups@[i]).id,
    ) && t.groups[groups@[i].id] == groups@[i]@ by {
        assert forall|j: int| i < j < groups@.len() implies (#[trigger] groups@[j]).id
            != groups@[i].id by {}
    }
}

/// What is sent after a connection holds what we hold in the conversation with
/// the peer, whatever that is, our profile, and every group that we share with
/// the peer.
pub proof fn opening_is_sent(
    state: &State,
    peer: &PeerKey,
    signed: Option<SignedProfile>,
    r: Vec<Payload>,
)
    requires
        call_ensures(State::post_connect, (state, peer, signed), r),
        state@.groups.dom().finite(),
        forall|g: GroupId| #[trigger] state@.groups.contains_key(g) ==> state@.groups[g].id == g,
    ensures
        ({
            let said = payload_models(r@);
            &&& said.contains(state@.have_payload(*peer, SyncScope::Direct))
            &&& said.contains(PayloadModel::Profile(signed_model(signed)))
            &&& forall|g: GroupId| #[trigger]
                state@.groups.contains_key(g) && state@.groups[g].members.contains(*peer)
                    ==> said.contains(PayloadModel::GroupAnnounce(state@.groups[g]))
                    && said.contains(state@.have_payload(*peer, SyncScope::Group(g)))
            &&& said.no_duplicates()
        }),
{
    crate::outgoing::opening_is_complete(state@, *peer, signed_model(signed));
    let said = payload_models(r@);
    let shared = |g: GroupId|
        state@.groups.contains_key(g) && state@.groups[g].members.contains(*peer);
    assert forall|g: GroupId| #[trigger]
        state@.groups.contains_key(g) && state@.groups[g].members.contains(*peer) implies
        said.contains(PayloadModel::GroupAnnounce(state@.groups[g])) && said.contains(
        state@.have_payload(*peer, SyncScope::Group(g)),
    ) by {
        assert(shared(g));
        let (i, j) = choose|i: int, j: int|
            0 <= i < j < said.len() && #[trigger] said[i] == PayloadModel::GroupAnnounce(
                state@.groups[g],
            ) && #[trigger] said[j] == state@.have_payload(*peer, SyncScope::Group(g));
        assert(said[i] == PayloadModel::GroupAnnounce(state@.groups[g]));
    }
}

/// A read mark of our own stands at its time or later from then on, and the peer
/// is told of it; nothing else changes.
pub proof fn own_read_mark_is_kept(node: &mut Node, peer: PeerKey, up_to: u64, r: Vec<Action>)
    requires
        call_ensures(Node::mark_read, (node, peer, up_to), r),
    ensures
        ({
            let s = old(node).state@;
            let t = final(node).state@;
            let me = old(node).id;
            let before = kept(s.conversations, peer);
            let after = t.conversations[peer];
            &&& t.conversations.contains_key(peer)
            &&& after.read.contains_key(me) && after.read[me] >= up_to
            &&& before.read.contains_key(me) ==> after.read[me] >= before.read[me]
            &&& after.read.remove(me) == before.read.remove(me)
            &&& after.messages == before.messages
            &&& after.reactions == before.reactions
            &&& after.lamport == before.lamport
            &&& t.conversations.remove(peer) == s.conversations.remove(peer)
            &&& t == (StateModel { conversations: t.conversations, ..s })
            &&& action_models(r@).contains(ActionModel::SaveConvo(peer))
            &&& action_models(r@).contains(
                ActionModel::SendWire { peer, wire: WireModel::Read { up_to } },
            )
            &&& r@.len() == 2
        }),
{
    let s = old(node).state@;
    let t = final(node).state@;
    let me = old(node).id;
    let before = kept(s.conversations, peer);
    assert(before =~= s.convo(peer));
    assert(t.conversations[peer].read.remove(me) =~= before.read.remove(me));
    assert(t.conversations.remove(peer) =~= s.conversations.remove(peer));
    assert(action_models(r@)[0] == ActionModel::SaveConvo(peer));
    assert(action_models(r@)[1] == ActionModel::SendWire {
        peer,
        wire: WireModel::Read { up_to },
    });
    assert(action_models(r@).len() == r@.len());
}

/// A text that was not encrypted and written to a connection is queued; only one
/// that was is sent.
pub proof fn only_written_texts_are_sent(
    node: &mut Node,
    peer: PeerKey,
    id: MessageId,
    attempt: SendAttempt,
    sent: bool,
    r: (DeliveryStatus, Vec<Action>),
)
    requires
        call_ensures(was_sent, (attempt,), sent),
        call_ensures(Node::settle_send, (node, peer, id, sent), r),
    ensures
        r.0 == DeliveryStatus::Sent <==> attempt == SendAttempt::Written(true),
        r.0 == DeliveryStatus::Sent || r.0 == DeliveryStatus::Queued,
        ({
            let queued = final(node).state@.queued;
            r.0 == DeliveryStatus::Queued ==> queued.contains_key(peer) && queued[peer].contains(id)
        }),
{
}

} // verus!
