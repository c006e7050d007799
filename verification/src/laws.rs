//! What holds of nodes as a whole.

#[allow(unused_imports)]
use crate::bytes::{lex_antisymmetric, lex_lt, lex_total};
#[allow(unused_imports)]
use crate::contact::ContactModel;
#[allow(unused_imports)]
use crate::conversation::ConversationModel;
#[allow(unused_imports)]
use crate::convergence::{
    applied_all_content, delta_heals, in_order_exists, marked_all_content, ordered_exists,
};
#[allow(unused_imports)]
use crate::exchange::{added_by, after_delta, delta_actions};
#[allow(unused_imports)]
use crate::frames::admits;
#[allow(unused_imports)]
use crate::identity::SignedProfileModel;
#[allow(unused_imports)]
use crate::keyed::in_order;
#[allow(unused_imports)]
use crate::protocol::{ActionModel, GroupId, GroupModel, PayloadModel, PeerKey, SyncScope};
#[allow(unused_imports)]
use crate::queries::{unread_by, unread_count};
#[allow(unused_imports)]
use crate::ratchet::{PreKeyBundle, RatchetSession};
#[allow(unused_imports)]
use crate::sending::last_time;
#[allow(unused_imports)]
use crate::state::StateModel;
#[allow(unused_imports)]
use crate::sync::{reactions_in_order, AuthorId, Message, MessageId, ReactionModel};
use vstd::prelude::*;

verus! {

/// A peer that is not a member of a group with us can neither change the group
/// nor its conversation, whatever it sends, and is told nothing of it.
pub proof fn outsiders_cannot_touch_a_group(
    s: StateModel,
    me: PeerKey,
    peer: PeerKey,
    gid: GroupId,
    payload: PayloadModel,
    now: u64,
    ids: Seq<MessageId>,
)
    requires
        s.groups.contains_key(gid),
        !s.group_allows(gid, peer, me),
    ensures
        s.after_payload(me, peer, payload, now).groups.contains_key(gid),
        s.after_payload(me, peer, payload, now).groups[gid] == s.groups[gid],
        s.after_payload(me, peer, payload, now).group_convo(gid) == s.group_convo(gid),
        s.payload_actions(
            me,
            peer,
            PayloadModel::SyncHave { scope: SyncScope::Group(gid), ids },
        ) == Seq::<ActionModel>::empty(),
{
    assert(s.payload_actions(
        me,
        peer,
        PayloadModel::SyncHave { scope: SyncScope::Group(gid), ids },
    ) =~= Seq::<ActionModel>::empty());
}

/// A group that we do not know cannot be made up by a message to it, a delta
/// for it or a question about it.
pub proof fn unknown_groups_stay_unknown(
    s: StateModel,
    me: PeerKey,
    peer: PeerKey,
    gid: GroupId,
    message: Message,
    messages: Seq<Message>,
    reactions: Seq<ReactionModel>,
    read: Seq<(AuthorId, u64)>,
    ids: Seq<MessageId>,
    now: u64,
)
    requires
        !s.groups.contains_key(gid),
    ensures
        ({
            let said = PayloadModel::GroupMessage { group: gid, message };
            let scope = SyncScope::Group(gid);
            let delta = PayloadModel::SyncDelta { scope, messages, reactions, read };
            let asked = PayloadModel::SyncHave { scope, ids };
            &&& s.after_payload(me, peer, said, now) == s
            &&& s.after_payload(me, peer, delta, now) == s
            &&& s.after_payload(me, peer, asked, now) == s
            &&& s.payload_actions(me, peer, said) == Seq::<ActionModel>::empty()
            &&& s.payload_actions(me, peer, delta) == Seq::<ActionModel>::empty()
            &&& s.payload_actions(me, peer, asked) == Seq::<ActionModel>::empty()
        }),
{
    assert(s.payload_actions(
        me,
        peer,
        PayloadModel::SyncHave { scope: SyncScope::Group(gid), ids },
    ) =~= Seq::<ActionModel>::empty());
}

/// We learn of a group only from one of its members, and only if we are one
/// ourselves; what we know of a group is not changed by others.
pub proof fn groups_are_learned_from_members(
    s: StateModel,
    me: PeerKey,
    peer: PeerKey,
    payload: PayloadModel,
    now: u64,
    gid: GroupId,
)
    ensures
        ({
            let t = s.after_payload(me, peer, payload, now);
            &&& s.groups.contains_key(gid) ==> t.groups.contains_key(gid) && t.groups[gid]
                == s.groups[gid]
            &&& t.groups.contains_key(gid) && !s.groups.contains_key(gid) ==> admits(
                t.groups[gid],
                peer,
                me,
            ) && t.groups[gid].id == gid
        }),
{
}

/// A watermark does not fall when a delta is merged.
proof fn delta_keeps_watermarks(
    c: ConversationModel,
    messages: Seq<Message>,
    reactions: Seq<ReactionModel>,
    read: Seq<(AuthorId, u64)>,
    a: AuthorId,
)
    ensures
        after_delta(c, messages, reactions, read).watermark(a) >= c.watermark(a),
{
    applied_all_content(c, messages);
    let d = c.applied_all(messages).reacted_all(reactions);
    marked_all_content(d, read);
    assert(d.marked_all(read).watermark(a) >= d.watermark(a));
}

/// A message that a peer has confirmed stays confirmed, whatever any peer
/// sends, reads or does with its connections.
pub proof fn delivered_stays_delivered(
    s: StateModel,
    me: PeerKey,
    peer: PeerKey,
    m: Message,
    other: PeerKey,
    payload: PayloadModel,
    up_to: u64,
    bundle: PreKeyBundle,
    generation: u64,
    now: u64,
)
    requires
        s.delivered(peer, m),
    ensures
        s.after_payload(me, other, payload, now).delivered(peer, m),
        s.after_read(me, other, up_to).delivered(peer, m),
        s.registered(me, other, bundle, now).delivered(peer, m),
        s.disconnected(other, generation, now).delivered(peer, m),
{
    if let PayloadModel::SyncDelta { scope, messages, reactions, read } = payload {
        delta_keeps_watermarks(s.convo(other), messages, reactions, read, peer);
    }
}

/// Once a messaging key is pinned, nothing that a peer sends or does changes
/// the pin: another key waits until the owner accepts it.
pub proof fn pin_is_kept(
    s: StateModel,
    me: PeerKey,
    peer: PeerKey,
    pinned: [u8; 32],
    other: PeerKey,
    payload: PayloadModel,
    key: [u8; 32],
    bundle: PreKeyBundle,
    generation: u64,
    now: u64,
)
    requires
        s.contacts.contains_key(peer),
        s.contacts[peer].pinned_msg_key == Some(pinned),
    ensures
        s.after_payload(me, other, payload, now).contacts[peer].pinned_msg_key == Some(pinned),
        s.after_key(other, key).contacts[peer].pinned_msg_key == Some(pinned),
        s.registered(me, other, bundle, now).contacts[peer].pinned_msg_key == Some(pinned),
        s.disconnected(other, generation, now).contacts[peer].pinned_msg_key == Some(pinned),
        key != pinned ==> s.after_key(peer, key).contacts[peer].pending_msg_key == Some(key),
        key == pinned ==> s.after_key(peer, key).contacts[peer].pending_msg_key is None,
{
}

/// Whoever completes a handshake is a contact with a pinned messaging key: the
/// key that was pinned before, or the one of this handshake. No session of an
/// earlier connection is left.
pub proof fn handshake_makes_a_pinned_contact(
    s: StateModel,
    me: PeerKey,
    peer: PeerKey,
    bundle: PreKeyBundle,
    now: u64,
)
    ensures
        ({
            let t = s.registered(me, peer, bundle, now);
            &&& t.contacts.contains_key(peer)
            &&& t.contacts[peer].last_seen == now
            &&& t.contacts[peer].pinned_msg_key == if s.contacts.contains_key(peer)
                && s.contacts[peer].pinned_msg_key is Some {
                s.contacts[peer].pinned_msg_key
            } else {
                Some(bundle.identity_key)
            }
            &&& t.conversations.contains_key(peer)
            &&& t.convo(peer) == s.convo(peer)
            &&& !t.sessions.contains_key(peer)
            &&& !t.inbound_sessions.contains_key(peer)
            &&& t.is_live(peer, s.next_gen)
        }),
{
}

/// Of two connected peers exactly one opens the exchange, and the other waits
/// for the session.
pub proof fn exactly_one_side_opens(
    a: StateModel,
    b: StateModel,
    x: PeerKey,
    y: PeerKey,
    bundle_x: PreKeyBundle,
    bundle_y: PreKeyBundle,
    now: u64,
)
    requires
        x != y,
        !a.pending_post_connect.contains(y),
        !b.pending_post_connect.contains(x),
    ensures
        ({
            let x_opens = a.register_actions(x, y, bundle_y, now).contains(
                ActionModel::PostConnect(y),
            );
            let y_opens = b.register_actions(y, x, bundle_x, now).contains(
                ActionModel::PostConnect(x),
            );
            &&& x_opens == !y_opens
            &&& x_opens == !a.registered(x, y, bundle_y, now).pending_post_connect.contains(y)
            &&& y_opens == !b.registered(y, x, bundle_x, now).pending_post_connect.contains(x)
        }),
{
    lex_total(x@, y@);
    if x@ == y@ {
        assert(x =~= y);
    }
    if lex_lt(x@, y@) {
        lex_antisymmetric(x@, y@);
    } else {
        lex_antisymmetric(y@, x@);
    }
    opens_if_smaller(a, x, y, bundle_y, now);
    opens_if_smaller(b, y, x, bundle_x, now);
}

/// The side with the smaller id opens the exchange.
proof fn opens_if_smaller(
    s: StateModel,
    me: PeerKey,
    peer: PeerKey,
    bundle: PreKeyBundle,
    now: u64,
)
    ensures
        s.register_actions(me, peer, bundle, now).contains(ActionModel::PostConnect(peer))
            == lex_lt(me@, peer@),
{
    let acts = s.register_actions(me, peer, bundle, now);
    if lex_lt(me@, peer@) {
        assert(acts.last() == ActionModel::PostConnect(peer));
    }
}

/// Where both peers have opened a session at once, both go on to send on the
/// one that the peer with the smaller id opened: that peer keeps its own and
/// the other takes it over.
pub proof fn competing_sessions_settle(
    a: StateModel,
    b: StateModel,
    x: PeerKey,
    y: PeerKey,
    from_y: RatchetSession,
    from_x: RatchetSession,
)
    requires
        lex_lt(x@, y@),
        a.sessions.contains_key(y),
        b.sessions.contains_key(x),
    ensures
        a.with_accepted(x, y, from_y).sessions == a.sessions,
        a.with_accepted(x, y, from_y).inbound_sessions == a.inbound_sessions.insert(y, from_y),
        b.with_accepted(y, x, from_x).sessions == b.sessions.insert(x, from_x),
        b.with_accepted(y, x, from_x).inbound_sessions == b.inbound_sessions,
{
    lex_antisymmetric(x@, y@);
}

/// An old connection that closes does not take a newer one with it.
pub proof fn stale_connections_close_nothing(
    s: StateModel,
    me: PeerKey,
    peer: PeerKey,
    bundle: PreKeyBundle,
    generation: u64,
    now: u64,
    later: u64,
)
    requires
        generation != s.next_gen,
    ensures
        s.registered(me, peer, bundle, now).disconnected(peer, generation, later) == s.registered(
            me,
            peer,
            bundle,
            now,
        ),
{
}

/// Of a removed contact nothing is left, and nothing else is touched. After the
/// next handshake it is a contact again, with a fresh pin and an empty
/// conversation.
pub proof fn removed_contact_leaves_nothing(
    s: StateModel,
    me: PeerKey,
    peer: PeerKey,
    other: PeerKey,
    bundle: PreKeyBundle,
    now: u64,
)
    requires
        other != peer,
    ensures
        ({
            let t = s.without_contact(peer);
            &&& !t.contacts.contains_key(peer) && !t.conversations.contains_key(peer)
            &&& !t.conns.contains_key(peer) && !t.bundles.contains_key(peer)
            &&& !t.sessions.contains_key(peer) && !t.inbound_sessions.contains_key(peer)
            &&& !t.pending_post_connect.contains(peer) && !t.peer_have.contains_key(peer)
                && !t.queued.contains_key(peer)
            &&& t.contacts.contains_key(other) == s.contacts.contains_key(other)
            &&& s.contacts.contains_key(other) ==> t.contacts[other] == s.contacts[other]
            &&& t.convo(other) == s.convo(other)
            &&& t.have_of(other) == s.have_of(other) && t.queued_for(other) == s.queued_for(other)
            &&& t.groups == s.groups && t.group_convos == s.group_convos
            &&& t.registered(me, peer, bundle, now).contacts[peer] == (ContactModel {
                pinned_msg_key: Some(bundle.identity_key),
                ..ContactModel::fresh(peer, now)
            })
            &&& t.registered(me, peer, bundle, now).convo(peer) == ConversationModel::empty()
        }),
{
}

/// Of the profiles that a peer has published the newest is kept, and only one
/// that the peer has signed.
pub proof fn newest_profile_is_kept(
    s: StateModel,
    me: PeerKey,
    peer: PeerKey,
    signed: SignedProfileModel,
    now: u64,
)
    requires
        s.contacts.contains_key(peer),
    ensures
        ({
            let before = s.contacts[peer].profile;
            let after = s.after_payload(
                me,
                peer,
                PayloadModel::Profile(Some(signed)),
                now,
            ).contacts[peer].profile;
            if signed.valid() && signed.id == peer {
                &&& after is Some
                &&& after->0.updated_at >= signed.profile.updated_at
                &&& before is Some ==> after->0.updated_at >= before->0.updated_at
                &&& after == before || after == Some(signed.profile)
            } else {
                after == before
            }
        }),
{
}

/// The exchange after a connection takes place once on each side: the side with
/// the smaller id starts it at once, the other with the first payload that it
/// gets on a session, and not again before the next connection.
pub proof fn exchange_takes_place_once(
    s: StateModel,
    me: PeerKey,
    peer: PeerKey,
    bundle: PreKeyBundle,
    session: RatchetSession,
    now: u64,
)
    ensures
        ({
            let t = s.registered(me, peer, bundle, now);
            let u = StateModel { sessions: t.sessions.insert(peer, session), ..t };
            let starts = s.register_actions(me, peer, bundle, now).contains(
                ActionModel::PostConnect(peer),
            );
            &&& starts == lex_lt(me@, peer@)
            &&& !starts ==> u.flush_actions(peer) == seq![ActionModel::PostConnect(peer)]
            &&& starts && !s.pending_post_connect.contains(peer) ==> u.flush_actions(peer)
                == Seq::<ActionModel>::empty()
            &&& u.flushed(peer).flush_actions(peer) == Seq::<ActionModel>::empty()
        }),
{
    let acts = s.register_actions(me, peer, bundle, now);
    if lex_lt(me@, peer@) {
        assert(acts.last() == ActionModel::PostConnect(peer));
        assert(acts.contains(ActionModel::PostConnect(peer)));
    }
}

/// The exchange of deltas ends. When a peer has merged what it was missing and
/// says so, the answer holds no message, and merging it makes nobody send
/// anything.
pub proof fn sync_settles(
    sender: StateModel,
    receiver: StateModel,
    x: PeerKey,
    y: PeerKey,
    reactions: Seq<ReactionModel>,
    read: Seq<(AuthorId, u64)>,
)
    requires
        sender.convo(y).wf(),
        receiver.convo(x).wf(),
    ensures
        ({
            let a = sender.convo(y);
            let b = receiver.convo(x);
            let merged = after_delta(b, a.delta(b.messages.dom()), reactions, read);
            let answer = a.delta(merged.messages.dom());
            let again = after_delta(merged, answer, reactions, read);
            &&& answer.len() == 0
            &&& added_by(merged, again) == 0
            &&& forall|p: PeerKey, payload: PayloadModel|
                !(#[trigger] delta_actions(receiver, x, SyncScope::Direct, 0).contains(
                    ActionModel::Send { peer: p, payload },
                ))
        }),
{
    let a = sender.convo(y);
    let b = receiver.convo(x);
    let d = a.delta(b.messages.dom());
    delta_heals(a, b);
    let first = b.applied_all(d).reacted_all(reactions);
    marked_all_content(first, read);
    let merged = first.marked_all(read);
    assert(merged.messages == b.applied_all(d).messages);
    let answer = a.delta(merged.messages.dom());
    applied_all_content(merged, answer);
    assert(merged.applied_all(answer) == merged);
    marked_all_content(merged.reacted_all(reactions), read);
}

/// A message that was recorded while the peer was away reaches it with the next
/// exchange, and then counts as delivered. The answer to what the peer holds
/// brings it the message; what the peer then says that it holds names the
/// message; and that takes it from the queue.
pub proof fn queued_message_heals(
    sender: StateModel,
    receiver: StateModel,
    x: PeerKey,
    y: PeerKey,
    m: Message,
    now: u64,
)
    requires
        sender.convo(y).wf(),
        receiver.convo(x).wf(),
        sender.convo(y).messages.contains_key(m.id),
        sender.convo(y).messages[m.id] == m,
        !receiver.convo(x).messages.contains_key(m.id),
    ensures
        ({
            let have = receiver.convo(x).messages.dom();
            let healed = receiver.after_payload(
                y,
                x,
                sender.delta_for(y, SyncScope::Direct, have),
                now,
            );
            let told = healed.have_payload(x, SyncScope::Direct);
            let settled = sender.after_payload(x, y, told, now);
            &&& healed.convo(x).messages.contains_key(m.id)
            &&& healed.convo(x).messages[m.id] == m
            &&& receiver.payload_actions(
                y,
                x,
                sender.delta_for(y, SyncScope::Direct, have),
            ).contains(ActionModel::Send { peer: x, payload: told })
            &&& settled.delivered(y, m)
            &&& !settled.queued_for(y).contains(m.id)
        }),
{
    let a = sender.convo(y);
    let b = receiver.convo(x);
    let have = b.messages.dom();
    let d = a.delta(have);
    let reactions = reactions_in_order(a.reactions);
    let read = a.marks();
    delta_heals(a, b);
    let merged = after_delta(b, d, reactions, read);
    marked_all_content(b.applied_all(d).reacted_all(reactions), read);
    assert(merged.messages == a.messages.union_prefer_right(b.messages));
    let payload = sender.delta_for(y, SyncScope::Direct, have);
    let healed = receiver.after_payload(y, x, payload, now);
    assert(healed.convo(x) == merged);
    assert(merged.messages.dom() =~= a.messages.dom().union(b.messages.dom()));
    let told = healed.have_payload(x, SyncScope::Direct);
    in_order_exists(merged.messages.dom());
    let ids = in_order(merged.messages.dom());
    assert(ids.to_set().contains(m.id));
    // The receiver holds more messages than before, so it says what it holds.
    assert(b.messages.dom().insert(m.id).subset_of(merged.messages.dom()));
    vstd::set_lib::lemma_len_subset(b.messages.dom().insert(m.id), merged.messages.dom());
    let acts = receiver.payload_actions(y, x, payload);
    assert(acts == delta_actions(healed, x, SyncScope::Direct, added_by(b, merged)));
    assert(acts.last() == ActionModel::Send { peer: x, payload: told });
}

/// Whoever holds a message of a group brings it to a member who lacks it. With
/// the next connection the member says what it holds; the answer to that holds
/// the message, and with the answer the member holds it too.
pub proof fn group_message_heals(
    sender: StateModel,
    receiver: StateModel,
    x: PeerKey,
    y: PeerKey,
    gid: GroupId,
    m: Message,
    profile: Option<SignedProfileModel>,
    now: u64,
)
    requires
        sender.group_allows(gid, y, x),
        receiver.group_allows(gid, x, y),
        receiver.groups.dom().finite(),
        receiver.groups[gid].id == gid,
        sender.group_convo(gid).wf(),
        receiver.group_convo(gid).wf(),
        sender.group_convo(gid).messages.contains_key(m.id),
        sender.group_convo(gid).messages[m.id] == m,
        !receiver.group_convo(gid).messages.contains_key(m.id),
    ensures
        ({
            let scope = SyncScope::Group(gid);
            let told = receiver.have_payload(x, scope);
            let answer = sender.delta_for(y, scope, receiver.group_convo(gid).messages.dom());
            let healed = receiver.after_payload(y, x, answer, now);
            &&& receiver.opening(x, profile).contains(told)
            &&& sender.payload_actions(x, y, told).contains(
                ActionModel::Send { peer: y, payload: answer },
            )
            &&& healed.group_convo(gid).messages.contains_key(m.id)
            &&& healed.group_convo(gid).messages[m.id] == m
        }),
{
    let scope = SyncScope::Group(gid);
    let told = receiver.have_payload(x, scope);
    let shared = receiver.shared_groups(x);
    shares_group(receiver, x, gid);
    let at = choose|i: int| 0 <= i < shared.len() && shared[i] == gid;
    let opening = receiver.opening(x, profile);
    assert(opening[2 + shared.len() + at] == told);
    answered_message_arrives(sender, receiver, x, y, gid, m, now);
}

/// A member who does not know a group yet learns of it from any other member,
/// and is brought its messages. With the next connection the group is announced;
/// on that the member says what it holds, and the answer to that holds the
/// message.
pub proof fn new_member_heals(
    sender: StateModel,
    receiver: StateModel,
    x: PeerKey,
    y: PeerKey,
    info: GroupModel,
    m: Message,
    profile: Option<SignedProfileModel>,
    now: u64,
)
    requires
        sender.groups.dom().finite(),
        sender.groups.contains_key(info.id),
        sender.groups[info.id] == info,
        admits(info, x, y),
        !receiver.groups.contains_key(info.id),
        sender.group_convo(info.id).wf(),
        receiver.group_convo(info.id).wf(),
        sender.group_convo(info.id).messages.contains_key(m.id),
        sender.group_convo(info.id).messages[m.id] == m,
        !receiver.group_convo(info.id).messages.contains_key(m.id),
    ensures
        ({
            let scope = SyncScope::Group(info.id);
            let news = PayloadModel::GroupAnnounce(info);
            let learned = receiver.after_payload(y, x, news, now);
            let told = learned.have_payload(x, scope);
            let answer = sender.delta_for(y, scope, receiver.group_convo(info.id).messages.dom());
            let healed = learned.after_payload(y, x, answer, now);
            &&& sender.opening(y, profile).contains(news)
            &&& learned.groups[info.id] == info
            &&& receiver.payload_actions(y, x, news).contains(
                ActionModel::Send { peer: x, payload: told },
            )
            &&& sender.payload_actions(x, y, told).contains(
                ActionModel::Send { peer: y, payload: answer },
            )
            &&& healed.group_convo(info.id).messages.contains_key(m.id)
            &&& healed.group_convo(info.id).messages[m.id] == m
        }),
{
    let gid = info.id;
    let news = PayloadModel::GroupAnnounce(info);
    let learned = receiver.after_payload(y, x, news, now);
    let shared = sender.shared_groups(y);
    shares_group(sender, y, gid);
    let at = choose|i: int| 0 <= i < shared.len() && shared[i] == gid;
    assert(sender.opening(y, profile)[1 + at] == news);
    let acts = receiver.payload_actions(y, x, news);
    assert(acts.last() == ActionModel::Send {
        peer: x,
        payload: learned.have_payload(x, SyncScope::Group(gid)),
    });
    answered_message_arrives(sender, learned, x, y, gid, m, now);
}

/// A group of which the peer is a member is among the shared ones.
proof fn shares_group(s: StateModel, peer: PeerKey, gid: GroupId)
    requires
        s.groups.dom().finite(),
        s.groups.contains_key(gid),
        s.groups[gid].members.contains(peer),
    ensures
        s.shared_groups(peer).contains(gid),
{
    let ids = in_order(s.groups.dom());
    in_order_exists(s.groups.dom());
    assert(ids.to_set().contains(gid));
    let at = choose|i: int| 0 <= i < ids.len() && ids[i] == gid;
    ids.lemma_filter_contains(s.has_member(peer), at);
}

/// A member who says what it holds in a group is answered with what it lacks.
proof fn answered_message_arrives(
    sender: StateModel,
    receiver: StateModel,
    x: PeerKey,
    y: PeerKey,
    gid: GroupId,
    m: Message,
    now: u64,
)
    requires
        sender.group_allows(gid, y, x),
        receiver.group_allows(gid, x, y),
        sender.group_convo(gid).wf(),
        receiver.group_convo(gid).wf(),
        sender.group_convo(gid).messages.contains_key(m.id),
        sender.group_convo(gid).messages[m.id] == m,
        !receiver.group_convo(gid).messages.contains_key(m.id),
    ensures
        ({
            let scope = SyncScope::Group(gid);
            let answer = sender.delta_for(y, scope, receiver.group_convo(gid).messages.dom());
            let healed = receiver.after_payload(y, x, answer, now);
            &&& sender.payload_actions(x, y, receiver.have_payload(x, scope)).contains(
                ActionModel::Send { peer: y, payload: answer },
            )
            &&& healed.group_convo(gid).messages.contains_key(m.id)
            &&& healed.group_convo(gid).messages[m.id] == m
        }),
{
    let a = sender.group_convo(gid);
    let b = receiver.group_convo(gid);
    let d = a.delta(b.messages.dom());
    let reactions = reactions_in_order(a.reactions);
    let read = a.marks();
    in_order_exists(b.messages.dom());
    let scope = SyncScope::Group(gid);
    let answer = sender.delta_for(y, scope, b.messages.dom());
    let acts = sender.payload_actions(x, y, receiver.have_payload(x, scope));
    assert(acts.last() == ActionModel::Send { peer: y, payload: answer });
    delta_heals(a, b);
    marked_all_content(b.applied_all(d).reacted_all(reactions), read);
    assert(receiver.after_payload(y, x, answer, now).group_convo(gid) == after_delta(
        b,
        d,
        reactions,
        read,
    ));
}

/// After the whole conversation was marked as read nothing is unread.
pub proof fn marking_read_leaves_nothing_unread(c: ConversationModel, me: PeerKey)
    requires
        c.wf(),
    ensures
        unread_count(c.marked(me, last_time(c)), me) == 0,
{
    let d = c.marked(me, last_time(c));
    let pred = unread_by(d, me);
    ordered_exists(c);
    assert(d.ordered() == c.ordered());
    let o = c.ordered();
    assert forall|i: int| 0 <= i < o.len() implies !pred(#[trigger] o[i]) by {
        let n = o.len() - 1;
        if i < n {
            assert(crate::conversation::message_order()(o[i], o[n]));
        }
        assert(o[i].lamport <= last_time(c));
    }
    none_match(o, pred);
}

/// Nothing is left where nothing matches.
proof fn none_match<A>(s: Seq<A>, pred: spec_fn(A) -> bool)
    requires
        forall|i: int| 0 <= i < s.len() ==> !pred(#[trigger] s[i]),
    ensures
        s.filter(pred).len() == 0,
    decreases s.len(),
{
    reveal(Seq::filter);
    if s.len() > 0 {
        none_match(s.drop_last(), pred);
    }
}

/// A peer that has read up to a time has got all of our messages up to there.
pub proof fn read_mark_confirms(
    s: StateModel,
    me: PeerKey,
    peer: PeerKey,
    up_to: u64,
    m: Message,
)
    requires
        s.convo(peer).messages.contains_key(m.id),
        s.convo(peer).messages[m.id] == m,
        m.author == me,
        m.lamport <= up_to,
    ensures
        s.after_read(me, peer, up_to).delivered(peer, m),
{
}

} // verus!
