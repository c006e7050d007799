//! What a node holds, says and does after a payload of a peer.

#[allow(unused_imports)]
use crate::conversation::ConversationModel;
#[allow(unused_imports)]
use crate::convergence::{applied_all_content, in_order_exists, marked_all_content};
#[allow(unused_imports)]
use crate::delivery::delivered_news;
#[allow(unused_imports)]
use crate::effects::{
    delta_holds_what_is_missing, history_is_complete_and_causal, marks_are_complete,
};
#[allow(unused_imports)]
use crate::exchange::{added_by, after_delta};
#[allow(unused_imports)]
use crate::identity::SignedProfileModel;
#[allow(unused_imports)]
use crate::keyed::in_order;
#[allow(unused_imports)]
use crate::order::filter_content;
#[allow(unused_imports)]
use crate::protocol::{
    ActionModel, DeliveryStatus, EventModel, GroupId, GroupModel, PayloadModel, PeerKey, SyncScope,
};
#[allow(unused_imports)]
use crate::state::StateModel;
#[allow(unused_imports)]
use crate::sync::{reactions_in_order, AuthorId, Message, MessageId, ReactionModel};
use vstd::prelude::*;

verus! {

/// The conversation that is kept under a key, or one in which nothing has been
/// said.
pub open spec fn kept<const N: usize>(
    convos: Map<[u8; N], ConversationModel>,
    k: [u8; N],
) -> ConversationModel {
    if convos.contains_key(k) {
        convos[k]
    } else {
        ConversationModel {
            messages: Map::empty(),
            reactions: Set::empty(),
            read: Map::empty(),
            lamport: 0,
        }
    }
}

/// A message of a peer is held in the conversation with that peer, whether it is
/// a text or offers a file and whatever time it bears. What stood under its id
/// stays, the clock is not behind it, and no other message and no other
/// conversation is touched.
pub proof fn message_of_a_peer_is_held(
    s: StateModel,
    me: PeerKey,
    peer: PeerKey,
    m: Message,
    key: [u8; 32],
    payload: PayloadModel,
    now: u64,
)
    requires
        payload == PayloadModel::Chat(m) || payload == (PayloadModel::FileOffer {
            message: m,
            key,
        }),
    ensures
        ({
            let t = s.after_payload(me, peer, payload, now);
            let c = t.conversations[peer];
            let known = s.conversations.contains_key(peer);
            &&& t.conversations.contains_key(peer)
            &&& c.messages.contains_key(m.id)
            &&& !(known && s.conversations[peer].messages.contains_key(m.id)) ==> c.messages[m.id]
                == m
            &&& known ==> forall|id: MessageId| #[trigger]
                s.conversations[peer].messages.contains_key(id) ==> c.messages.contains_key(id)
                    && c.messages[id] == s.conversations[peer].messages[id]
            &&& forall|id: MessageId| #[trigger]
                c.messages.contains_key(id) ==> id == m.id || (known
                    && s.conversations[peer].messages.contains_key(id))
            &&& c.lamport >= m.lamport
            &&& known ==> c.lamport >= s.conversations[peer].lamport
            &&& c.lamport == m.lamport || (known && c.lamport == s.conversations[peer].lamport)
            &&& known ==> c.reactions == s.conversations[peer].reactions && c.read
                == s.conversations[peer].read
            &&& !known ==> c.reactions.is_empty() && c.read.dom().is_empty()
            &&& forall|p: PeerKey|
                p != peer ==> #[trigger] t.conversations.contains_key(p)
                    == s.conversations.contains_key(p) && t.conversations[p] == s.conversations[p]
        }),
{
}

/// A message of a peer changes nothing but the conversation, the time at which
/// the peer was last seen and, where it offers a file, what is known of that
/// transfer. The owner is told of it, and it is stored.
pub proof fn message_of_a_peer_is_told(
    s: StateModel,
    me: PeerKey,
    peer: PeerKey,
    m: Message,
    key: [u8; 32],
    payload: PayloadModel,
    now: u64,
)
    requires
        payload == PayloadModel::Chat(m) || payload == (PayloadModel::FileOffer {
            message: m,
            key,
        }),
    ensures
        ({
            let t = s.after_payload(me, peer, payload, now);
            let acts = s.payload_actions(me, peer, payload);
            &&& acts.contains(ActionModel::Emit(EventModel::MessageReceived { peer, message: m }))
            &&& acts.contains(ActionModel::SaveConvo(peer))
            &&& acts.contains(ActionModel::SaveContact(peer))
            &&& acts.no_duplicates()
            &&& acts.len() == 3
            &&& t.contacts.dom() == s.contacts.dom()
            &&& s.contacts.contains_key(peer) ==> {
                &&& t.contacts[peer].last_seen == now
                &&& t.contacts[peer].peer == s.contacts[peer].peer
                &&& t.contacts[peer].profile == s.contacts[peer].profile
                &&& t.contacts[peer].alias == s.contacts[peer].alias
                &&& t.contacts[peer].pinned_msg_key == s.contacts[peer].pinned_msg_key
                &&& t.contacts[peer].pending_msg_key == s.contacts[peer].pending_msg_key
                &&& t.contacts[peer].added_at == s.contacts[peer].added_at
            }
            &&& forall|p: PeerKey|
                p != peer && s.contacts.contains_key(p) ==> #[trigger] t.contacts[p]
                    == s.contacts[p]
            &&& payload is Chat ==> t.pending_files == s.pending_files
            &&& payload is FileOffer && m.kind is File ==> {
                let f = m.kind->File_0;
                &&& t.pending_files.contains_key(f.transfer_id)
                &&& t.pending_files[f.transfer_id].key == key
                &&& t.pending_files[f.transfer_id].sha256 == f.sha256
                &&& t.pending_files[f.transfer_id].name == f.name
                &&& t.pending_files.remove(f.transfer_id) == s.pending_files.remove(f.transfer_id)
            }
            &&& m.kind is Text ==> t.pending_files == s.pending_files
            &&& t.groups == s.groups
            &&& t.group_convos == s.group_convos
            &&& t.peer_have == s.peer_have
            &&& t.queued == s.queued
            &&& t.sessions == s.sessions
            &&& t.inbound_sessions == s.inbound_sessions
            &&& t.conns == s.conns
            &&& t.discovered == s.discovered
            &&& t.pending_post_connect == s.pending_post_connect
        }),
{
    let t = s.after_payload(me, peer, payload, now);
    let acts = s.payload_actions(me, peer, payload);
    assert(acts[0] == ActionModel::SaveConvo(peer));
    assert(acts[1] == ActionModel::SaveContact(peer));
    assert(acts[2] == ActionModel::Emit(EventModel::MessageReceived { peer, message: m }));
    assert(t.contacts.dom() =~= s.contacts.dom());
    if payload is FileOffer && m.kind is File {
        let id = m.kind->File_0.transfer_id;
        assert(t.pending_files.remove(id) =~= s.pending_files.remove(id));
    }
}

/// A message of a member is held in the conversation of its group, whatever time
/// it bears, and the owner is told of it. Nothing else is touched.
pub proof fn message_of_a_member_is_held(
    s: StateModel,
    me: PeerKey,
    peer: PeerKey,
    group: GroupId,
    m: Message,
    now: u64,
)
    requires
        s.groups.contains_key(group),
        s.groups[group].members.contains(peer),
        s.groups[group].members.contains(me),
    ensures
        ({
            let payload = PayloadModel::GroupMessage { group, message: m };
            let t = s.after_payload(me, peer, payload, now);
            let acts = s.payload_actions(me, peer, payload);
            let c = t.group_convos[group];
            let known = s.group_convos.contains_key(group);
            &&& t.group_convos.contains_key(group)
            &&& c.messages.contains_key(m.id)
            &&& !(known && s.group_convos[group].messages.contains_key(m.id)) ==> c.messages[m.id]
                == m
            &&& known ==> forall|id: MessageId| #[trigger]
                s.group_convos[group].messages.contains_key(id) ==> c.messages.contains_key(id)
                    && c.messages[id] == s.group_convos[group].messages[id]
            &&& forall|id: MessageId| #[trigger]
                c.messages.contains_key(id) ==> id == m.id || (known
                    && s.group_convos[group].messages.contains_key(id))
            &&& c.lamport >= m.lamport
            &&& known ==> c.lamport >= s.group_convos[group].lamport
            &&& c.lamport == m.lamport || (known && c.lamport == s.group_convos[group].lamport)
            &&& known ==> c.reactions == s.group_convos[group].reactions && c.read
                == s.group_convos[group].read
            &&& forall|g: GroupId|
                g != group ==> #[trigger] t.group_convos.contains_key(g)
                    == s.group_convos.contains_key(g) && t.group_convos[g] == s.group_convos[g]
            &&& t == (StateModel { group_convos: t.group_convos, ..s })
            &&& acts.contains(ActionModel::SaveGroupConvo(group))
            &&& acts.contains(
                ActionModel::Emit(EventModel::GroupMessageReceived { group, message: m }),
            )
            &&& acts.no_duplicates()
            &&& acts.len() == 2
        }),
{
    let acts = s.payload_actions(me, peer, PayloadModel::GroupMessage { group, message: m });
    assert(acts[0] == ActionModel::SaveGroupConvo(group));
    assert(acts[1] == ActionModel::Emit(EventModel::GroupMessageReceived { group, message: m }));
}

/// What we say that we hold in the conversation with a peer names each message
/// of it once, and nothing else.
pub proof fn what_is_held_is_said(s: StateModel, peer: PeerKey)
    requires
        s.conversations.contains_key(peer) ==> s.conversations[peer].wf(),
    ensures
        s.have_payload(peer, SyncScope::Direct) matches PayloadModel::SyncHave { scope, ids } && {
            &&& scope == SyncScope::Direct
            &&& ids.no_duplicates()
            &&& forall|id: MessageId| #[trigger]
                ids.contains(id) <==> s.conversations.contains_key(peer)
                    && s.conversations[peer].messages.contains_key(id)
        },
{
    let held = s.convo(peer).messages.dom();
    in_order_exists(held);
    let ids = in_order(held);
    crate::keyed::ascending_is_in_order(ids);
    assert forall|id: MessageId| #[trigger] ids.contains(id) <==> s.conversations.contains_key(peer)
        && s.conversations[peer].messages.contains_key(id) by {
        assert(ids.contains(id) == ids.to_set().contains(id));
    }
}

/// What we say that we hold in a group names each message of it once, and
/// nothing else.
pub proof fn what_a_group_holds_is_said(s: StateModel, peer: PeerKey, gid: GroupId)
    requires
        s.group_convos.contains_key(gid) ==> s.group_convos[gid].wf(),
    ensures
        s.have_payload(peer, SyncScope::Group(gid)) matches PayloadModel::SyncHave { scope, ids }
            && {
            &&& scope == SyncScope::Group(gid)
            &&& ids.no_duplicates()
            &&& forall|id: MessageId| #[trigger]
                ids.contains(id) <==> s.group_convos.contains_key(gid)
                    && s.group_convos[gid].messages.contains_key(id)
        },
{
    let held = s.group_convo(gid).messages.dom();
    in_order_exists(held);
    let ids = in_order(held);
    crate::keyed::ascending_is_in_order(ids);
    assert forall|id: MessageId| #[trigger] ids.contains(id) <==> s.group_convos.contains_key(gid)
        && s.group_convos[gid].messages.contains_key(id) by {
        assert(ids.contains(id) == ids.to_set().contains(id));
    }
}

/// A peer that says what it holds is answered with one delta: every message of
/// the conversation with it that it did not name, every reaction and every
/// watermark, and nothing else.
pub proof fn peer_is_answered(
    s: StateModel,
    me: PeerKey,
    peer: PeerKey,
    ids: Seq<MessageId>,
)
    requires
        kept(s.conversations, peer).wf(),
    ensures
        ({
            let payload = PayloadModel::SyncHave { scope: SyncScope::Direct, ids };
            let acts = s.payload_actions(me, peer, payload);
            let c = kept(s.conversations, peer);
            &&& acts.len() > 0
            &&& acts.last() matches ActionModel::Send { peer: to, payload: answer } && to == peer && {
                answer matches PayloadModel::SyncDelta { scope, messages, reactions, read } && {
                    &&& scope == SyncScope::Direct
                    &&& messages.no_duplicates()
                    &&& forall|m: Message| #[trigger]
                        messages.contains(m) <==> c.messages.contains_key(m.id)
                            && c.messages[m.id] == m && !ids.contains(m.id)
                    &&& forall|r: ReactionModel| #[trigger]
                        reactions.contains(r) <==> c.reactions.contains(r)
                    &&& forall|a: AuthorId, t: u64| #[trigger]
                        read.contains((a, t)) <==> c.read.contains_key(a) && c.read[a] == t
                }
            }
            &&& forall|i: int|
                0 <= i < acts.len() - 1 ==> (#[trigger] acts[i]) is Emit
        }),
{
    let c = kept(s.conversations, peer);
    answer_content(c, ids);
    let payload = PayloadModel::SyncHave { scope: SyncScope::Direct, ids };
    let acts = s.payload_actions(me, peer, payload);
    let news = delivered_news(peer, ids.filter(s.unconfirmed(me, peer)));
    assert(acts == news.push(acts.last()));
}

/// A member that says what it holds in a group is answered with every message of
/// the group that it did not name, every reaction and every watermark, and with
/// nothing else. Nobody else is answered.
pub proof fn member_is_answered(
    s: StateModel,
    me: PeerKey,
    peer: PeerKey,
    gid: GroupId,
    ids: Seq<MessageId>,
)
    requires
        kept(s.group_convos, gid).wf(),
    ensures
        ({
            let payload = PayloadModel::SyncHave { scope: SyncScope::Group(gid), ids };
            let acts = s.payload_actions(me, peer, payload);
            let c = kept(s.group_convos, gid);
            let allowed = s.groups.contains_key(gid) && s.groups[gid].members.contains(peer)
                && s.groups[gid].members.contains(me);
            if allowed {
                &&& acts.len() == 1
                &&& acts[0] matches ActionModel::Send { peer: to, payload: answer } && to == peer && {
                    answer matches PayloadModel::SyncDelta { scope, messages, reactions, read } && {
                        &&& scope == SyncScope::Group(gid)
                        &&& messages.no_duplicates()
                        &&& forall|m: Message| #[trigger]
                            messages.contains(m) <==> c.messages.contains_key(m.id)
                                && c.messages[m.id] == m && !ids.contains(m.id)
                        &&& forall|r: ReactionModel| #[trigger]
                            reactions.contains(r) <==> c.reactions.contains(r)
                        &&& forall|a: AuthorId, t: u64| #[trigger]
                            read.contains((a, t)) <==> c.read.contains_key(a) && c.read[a] == t
                    }
                }
            } else {
                acts.len() == 0
            }
        }),
{
    answer_content(kept(s.group_convos, gid), ids);
}

/// The parts of the answer to somebody who holds these ids.
proof fn answer_content(c: ConversationModel, ids: Seq<MessageId>)
    requires
        c.wf(),
    ensures
        c.delta(ids.to_set()).no_duplicates(),
        forall|m: Message| #[trigger]
            c.delta(ids.to_set()).contains(m) <==> c.messages.contains_key(m.id)
                && c.messages[m.id] == m && !ids.contains(m.id),
        forall|r: ReactionModel| #[trigger]
            reactions_in_order(c.reactions).contains(r) <==> c.reactions.contains(r),
        forall|a: AuthorId, t: u64| #[trigger]
            c.marks().contains((a, t)) <==> c.read.contains_key(a) && c.read[a] == t,
{
    delta_holds_what_is_missing(c, ids.to_set());
    marks_are_complete(c);
    crate::convergence::snapshot_round_trip(c);
    crate::effects::snapshot_brings_everything_back(
        c.by_id(c.messages.dom()),
        reactions_in_order(c.reactions),
        c.marks(),
    );
}

/// A peer that says what it holds has confirmed it: just those messages are
/// delivered and no longer queued in addition to before. The owner is told of
/// each message of theirs that was not confirmed before, and of no other.
pub proof fn what_a_peer_says_is_confirmed(
    s: StateModel,
    me: PeerKey,
    peer: PeerKey,
    ids: Seq<MessageId>,
    now: u64,
)
    ensures
        ({
            let payload = PayloadModel::SyncHave { scope: SyncScope::Direct, ids };
            let t = s.after_payload(me, peer, payload, now);
            let acts = s.payload_actions(me, peer, payload);
            &&& t == (StateModel { peer_have: t.peer_have, queued: t.queued, ..s })
            &&& t.peer_have.contains_key(peer)
            &&& forall|id: MessageId| #[trigger]
                t.peer_have[peer].contains(id) <==> ids.contains(id) || (s.peer_have.contains_key(
                    peer,
                ) && s.peer_have[peer].contains(id))
            &&& t.queued.dom() == s.queued.dom()
            &&& s.queued.contains_key(peer) ==> forall|id: MessageId| #[trigger]
                t.queued[peer].contains(id) <==> s.queued[peer].contains(id) && !ids.contains(id)
            &&& forall|p: PeerKey|
                p != peer ==> #[trigger] t.peer_have.contains_key(p) == s.peer_have.contains_key(p)
                    && t.peer_have[p] == s.peer_have[p]
            &&& forall|p: PeerKey|
                p != peer && s.queued.contains_key(p) ==> #[trigger] t.queued[p] == s.queued[p]
            &&& forall|id: MessageId|
                acts.contains(#[trigger] delivered_event(peer, id)) <==> ids.contains(id)
                    && s.conversations.contains_key(peer)
                    && s.conversations[peer].messages.contains_key(id)
                    && s.conversations[peer].messages[id].author == me && !(
                s.peer_have.contains_key(peer) && s.peer_have[peer].contains(id))
            &&& ids.no_duplicates() ==> acts.no_duplicates()
        }),
{
    let payload = PayloadModel::SyncHave { scope: SyncScope::Direct, ids };
    let t = s.after_payload(me, peer, payload, now);
    let acts = s.payload_actions(me, peer, payload);
    let pred = s.unconfirmed(me, peer);
    let fresh = ids.filter(pred);
    let news = delivered_news(peer, fresh);
    filter_content(ids, pred);
    news_content(peer, fresh);
    assert(acts == news.push(acts.last()));
    assert(t.queued.dom() =~= s.queued.dom());
    crate::order::push_to_set(news, acts.last());
    assert forall|id: MessageId|
        acts.contains(#[trigger] delivered_event(peer, id)) <==> fresh.contains(id) by {
        let e = delivered_event(peer, id);
        assert(acts.contains(e) == acts.to_set().contains(e));
        assert(news.contains(e) == news.to_set().contains(e));
    }
    if ids.no_duplicates() {
        assert forall|i: int, j: int| 0 <= i < acts.len() && 0 <= j < acts.len() && i
            != j implies acts[i] != acts[j] by {
            if i < news.len() {
                assert(acts[i] == news[i] && news[i] is Emit);
            }
            if j < news.len() {
                assert(acts[j] == news[j] && news[j] is Emit);
            }
        }
    }
}

/// The event that a message has been delivered.
pub open spec fn delivered_event(peer: PeerKey, id: MessageId) -> ActionModel {
    ActionModel::Emit(EventModel::MessageStatus { peer, id, status: DeliveryStatus::Delivered })
}

/// There is one piece of news for each message.
proof fn news_content(peer: PeerKey, ids: Seq<MessageId>)
    ensures
        forall|id: MessageId|
            delivered_news(peer, ids).contains(#[trigger] delivered_event(peer, id))
                <==> ids.contains(id),
        ids.no_duplicates() ==> delivered_news(peer, ids).no_duplicates(),
        delivered_news(peer, ids).len() == ids.len(),
{
    let news = delivered_news(peer, ids);
    assert forall|id: MessageId|
        news.contains(#[trigger] delivered_event(peer, id)) <==> ids.contains(id) by {
        if ids.contains(id) {
            let i = choose|i: int| 0 <= i < ids.len() && ids[i] == id;
            assert(news[i] == delivered_event(peer, id));
        }
        if news.contains(delivered_event(peer, id)) {
            let i = choose|i: int| 0 <= i < news.len() && news[i] == delivered_event(peer, id);
            assert(ids[i] == id);
        }
    }
}

/// A delta is merged whole: every message, every reaction and every watermark in
/// it is there afterwards, what was there stays, and nothing else comes in.
pub proof fn delta_is_merged(
    c: ConversationModel,
    messages: Seq<Message>,
    reactions: Seq<ReactionModel>,
    read: Seq<(AuthorId, u64)>,
)
    ensures
        ({
            let d = after_delta(c, messages, reactions, read);
            &&& forall|id: MessageId| #[trigger]
                c.messages.contains_key(id) ==> d.messages.contains_key(id) && d.messages[id]
                    == c.messages[id]
            &&& forall|i: int|
                0 <= i < messages.len() ==> d.messages.contains_key((#[trigger] messages[i]).id)
            &&& forall|id: MessageId| #[trigger]
                d.messages.contains_key(id) && !c.messages.contains_key(id) ==> messages.contains(
                    d.messages[id],
                ) && d.messages[id].id == id
            &&& forall|r: ReactionModel| #[trigger]
                d.reactions.contains(r) <==> c.reactions.contains(r) || reactions.contains(r)
            &&& forall|a: AuthorId| #[trigger]
                c.read.contains_key(a) ==> d.read.contains_key(a) && d.read[a] >= c.read[a]
            &&& forall|i: int|
                0 <= i < read.len() ==> d.read.contains_key((#[trigger] read[i]).0)
                    && d.read[read[i].0] >= read[i].1
            &&& forall|a: AuthorId| #[trigger]
                d.read.contains_key(a) ==> (c.read.contains_key(a) && d.read[a] == c.read[a])
                    || read.contains((a, d.read[a]))
            &&& d.lamport >= c.lamport
            &&& forall|i: int|
                0 <= i < messages.len() ==> d.lamport >= (#[trigger] messages[i]).lamport
        }),
{
    let a = c.applied_all(messages);
    let b = a.reacted_all(reactions);
    let d = after_delta(c, messages, reactions, read);
    applied_all_content(c, messages);
    marked_all_content(b, read);
    assert(d.messages == a.messages);
    assert(b.read == c.read);
    assert forall|id: MessageId| #[trigger] c.messages.contains_key(
        id,
    ) implies d.messages.contains_key(id) && d.messages[id] == c.messages[id] by {
        assert(a.messages.contains_key(id));
        assert(a.messages[id] == c.messages[id]);
    }
    assert forall|i: int| 0 <= i < messages.len() implies d.messages.contains_key(
        (#[trigger] messages[i]).id,
    ) by {
        assert(a.messages.contains_key(messages[i].id));
    }
    assert forall|id: MessageId| #[trigger]
        d.messages.contains_key(id) && !c.messages.contains_key(id) implies messages.contains(
        d.messages[id],
    ) && d.messages[id].id == id by {
        assert(a.messages.contains_key(id));
    }
    assert forall|x: AuthorId| #[trigger] c.read.contains_key(x) implies d.read.contains_key(x)
        && d.read[x] >= c.read[x] by {
        assert(d.read.contains_key(x));
        assert(d.watermark(x) >= b.watermark(x));
    }
    assert forall|i: int| 0 <= i < read.len() implies d.read.contains_key((#[trigger] read[i]).0)
        && d.read[read[i].0] >= read[i].1 by {
        assert(d.read.contains_key(read[i].0));
        assert(d.watermark(read[i].0) >= read[i].1);
    }
    assert forall|x: AuthorId| #[trigger] d.read.contains_key(x) implies (c.read.contains_key(x)
        && d.read[x] == c.read[x]) || read.contains((x, d.read[x])) by {
        assert(d.watermark(x) == d.read[x]);
        if exists|i: int| 0 <= i < read.len() && (#[trigger] read[i]).0 == x && read[i].1 == d.watermark(x) {
            let i = choose|i: int|
                0 <= i < read.len() && (#[trigger] read[i]).0 == x && read[i].1 == d.watermark(x);
            assert(read[i] == (x, d.read[x]));
        } else {
            assert(d.watermark(x) == b.watermark(x));
            if !c.read.contains_key(x) {
                let i = choose|i: int| 0 <= i < read.len() && (#[trigger] read[i]).0 == x;
                assert(d.watermark(read[i].0) >= read[i].1);
            }
        }
    }
}

/// A delta of a peer goes into the conversation with that peer and nowhere else.
/// It is stored, the owner learns the number of messages that were new, and
/// where there were any, the peer learns what is held now.
pub proof fn delta_of_a_peer_is_taken_in(
    s: StateModel,
    me: PeerKey,
    peer: PeerKey,
    messages: Seq<Message>,
    reactions: Seq<ReactionModel>,
    read: Seq<(AuthorId, u64)>,
    now: u64,
)
    requires
        kept(s.conversations, peer).wf(),
    ensures
        ({
            let scope = SyncScope::Direct;
            let payload = PayloadModel::SyncDelta { scope, messages, reactions, read };
            let t = s.after_payload(me, peer, payload, now);
            let acts = s.payload_actions(me, peer, payload);
            let new = messages.map_values(|m: Message| m.id).to_set().difference(
                kept(s.conversations, peer).messages.dom(),
            );
            &&& t.conversations.contains_key(peer)
            &&& t.conversations[peer] == after_delta(
                kept(s.conversations, peer),
                messages,
                reactions,
                read,
            )
            &&& t.conversations.remove(peer) == s.conversations.remove(peer)
            &&& t == (StateModel { conversations: t.conversations, ..s })
            &&& acts.contains(ActionModel::SaveConvo(peer))
            &&& acts.contains(
                ActionModel::Emit(EventModel::HistorySynced { peer, scope, added: new.len() }),
            )
            &&& new.len() > 0 ==> acts.len() == 3 && acts.contains(
                ActionModel::Send { peer, payload: t.have_payload(peer, scope) },
            )
            &&& new.len() == 0 ==> acts.len() == 2
        }),
{
    let scope = SyncScope::Direct;
    let payload = PayloadModel::SyncDelta { scope, messages, reactions, read };
    let t = s.after_payload(me, peer, payload, now);
    let acts = s.payload_actions(me, peer, payload);
    let c = kept(s.conversations, peer);
    added_is_exact(c, messages, reactions, read);
    assert(t.conversations.remove(peer) =~= s.conversations.remove(peer));
    assert(acts[0] == ActionModel::SaveConvo(peer));
    let new = messages.map_values(|m: Message| m.id).to_set().difference(c.messages.dom());
    assert(acts[1] == ActionModel::Emit(
        EventModel::HistorySynced { peer, scope, added: new.len() },
    ));
    if new.len() > 0 {
        assert(acts[2] == ActionModel::Send { peer, payload: t.have_payload(peer, scope) });
    }
}

/// A delta of a member goes into the conversation of the group and nowhere else.
/// It is stored, and the owner learns the number of messages that were new.
pub proof fn delta_of_a_member_is_taken_in(
    s: StateModel,
    me: PeerKey,
    peer: PeerKey,
    gid: GroupId,
    messages: Seq<Message>,
    reactions: Seq<ReactionModel>,
    read: Seq<(AuthorId, u64)>,
    now: u64,
)
    requires
        s.groups.contains_key(gid),
        s.groups[gid].members.contains(peer),
        s.groups[gid].members.contains(me),
        kept(s.group_convos, gid).wf(),
    ensures
        ({
            let scope = SyncScope::Group(gid);
            let payload = PayloadModel::SyncDelta { scope, messages, reactions, read };
            let t = s.after_payload(me, peer, payload, now);
            let acts = s.payload_actions(me, peer, payload);
            let new = messages.map_values(|m: Message| m.id).to_set().difference(
                kept(s.group_convos, gid).messages.dom(),
            );
            &&& t.group_convos.contains_key(gid)
            &&& t.group_convos[gid] == after_delta(kept(s.group_convos, gid), messages, reactions, read)
            &&& t.group_convos.remove(gid) == s.group_convos.remove(gid)
            &&& t == (StateModel { group_convos: t.group_convos, ..s })
            &&& acts.len() == 2
            &&& acts.contains(ActionModel::SaveGroupConvo(gid))
            &&& acts.contains(
                ActionModel::Emit(EventModel::HistorySynced { peer, scope, added: new.len() }),
            )
        }),
{
    let scope = SyncScope::Group(gid);
    let payload = PayloadModel::SyncDelta { scope, messages, reactions, read };
    let t = s.after_payload(me, peer, payload, now);
    let acts = s.payload_actions(me, peer, payload);
    let c = kept(s.group_convos, gid);
    added_is_exact(c, messages, reactions, read);
    assert(t.group_convos.remove(gid) =~= s.group_convos.remove(gid));
    assert(acts[0] == ActionModel::SaveGroupConvo(gid));
    let new = messages.map_values(|m: Message| m.id).to_set().difference(c.messages.dom());
    assert(acts[1] == ActionModel::Emit(
        EventModel::HistorySynced { peer, scope, added: new.len() },
    ));
}

/// What a delta adds is the number of ids in it that were not held.
proof fn added_is_exact(
    c: ConversationModel,
    messages: Seq<Message>,
    reactions: Seq<ReactionModel>,
    read: Seq<(AuthorId, u64)>,
)
    requires
        c.wf(),
    ensures
        added_by(c, after_delta(c, messages, reactions, read)) == messages.map_values(
            |m: Message| m.id,
        ).to_set().difference(c.messages.dom()).len(),
{
    let d = after_delta(c, messages, reactions, read);
    let ids = messages.map_values(|m: Message| m.id);
    let new = ids.to_set().difference(c.messages.dom());
    delta_is_merged(c, messages, reactions, read);
    assert forall|id: MessageId| d.messages.dom().contains(id) == c.messages.dom().union(
        new,
    ).contains(id) by {
        if d.messages.contains_key(id) && !c.messages.contains_key(id) {
            let i = choose|i: int| 0 <= i < messages.len() && messages[i] == d.messages[id];
            assert(ids[i] == id);
        }
        if new.contains(id) {
            let i = choose|i: int| 0 <= i < ids.len() && ids[i] == id;
            assert(d.messages.contains_key(messages[i].id));
        }
    }
    assert(d.messages.dom() =~= c.messages.dom().union(new));
    vstd::seq_lib::seq_to_set_is_finite(ids);
    vstd::set_lib::lemma_set_disjoint_lens(c.messages.dom(), new);
}

/// A read mark of a peer confirms just our own messages up to its time, in
/// addition to those that were confirmed before, and takes them from the queue.
/// The watermark of the peer rises to that time, and nothing else changes.
pub proof fn read_mark_of_a_peer_confirms(s: StateModel, me: PeerKey, peer: PeerKey, up_to: u64)
    requires
        kept(s.conversations, peer).wf(),
    ensures
        ({
            let t = s.after_read(me, peer, up_to);
            let c = kept(s.conversations, peer);
            let reached = |id: MessageId|
                c.messages.contains_key(id) && c.messages[id].author == me
                    && c.messages[id].lamport <= up_to;
            &&& t == (StateModel {
                conversations: t.conversations,
                peer_have: t.peer_have,
                queued: t.queued,
                ..s
            })
            &&& t.conversations.contains_key(peer)
            &&& t.conversations[peer] == c.marked(peer, up_to)
            &&& t.conversations.remove(peer) == s.conversations.remove(peer)
            &&& t.peer_have.contains_key(peer)
            &&& forall|id: MessageId| #[trigger]
                t.peer_have[peer].contains(id) <==> reached(id) || (s.peer_have.contains_key(peer)
                    && s.peer_have[peer].contains(id))
            &&& t.peer_have.remove(peer) == s.peer_have.remove(peer)
            &&& t.queued.dom() == s.queued.dom()
            &&& s.queued.contains_key(peer) ==> forall|id: MessageId| #[trigger]
                t.queued[peer].contains(id) <==> s.queued[peer].contains(id) && !(reached(id) && !(
                s.peer_have.contains_key(peer) && s.peer_have[peer].contains(id)))
            &&& t.queued.remove(peer) == s.queued.remove(peer)
        }),
{
    let t = s.after_read(me, peer, up_to);
    let c = kept(s.conversations, peer);
    read_confirms_exactly(s, me, peer, up_to);
    assert(t.conversations.remove(peer) =~= s.conversations.remove(peer));
    assert(t.peer_have.remove(peer) =~= s.peer_have.remove(peer));
    assert(t.queued.remove(peer) =~= s.queued.remove(peer));
    assert(t.queued.dom() =~= s.queued.dom());
}

/// What the owner is told of a read mark: each of their messages up to its time
/// that was not confirmed before has been delivered. Each is told once, and no
/// other.
pub proof fn read_mark_of_a_peer_is_told(s: StateModel, me: PeerKey, peer: PeerKey, up_to: u64)
    requires
        kept(s.conversations, peer).wf(),
    ensures
        ({
            let c = kept(s.conversations, peer);
            let u = s.with_convo(peer, c.marked(peer, up_to));
            let news = delivered_news(peer, u.confirmed_by_read(me, peer, up_to));
            &&& news.no_duplicates()
            &&& forall|id: MessageId|
                news.contains(#[trigger] delivered_event(peer, id)) <==> c.messages.contains_key(id)
                    && c.messages[id].author == me && c.messages[id].lamport <= up_to && !(
                s.peer_have.contains_key(peer) && s.peer_have[peer].contains(id))
        }),
{
    let c = kept(s.conversations, peer);
    let u = s.with_convo(peer, c.marked(peer, up_to));
    let ids = u.confirmed_by_read(me, peer, up_to);
    read_confirms_exactly(s, me, peer, up_to);
    news_content(peer, ids);
}

/// The messages that a read mark confirms.
proof fn read_confirms_exactly(s: StateModel, me: PeerKey, peer: PeerKey, up_to: u64)
    requires
        kept(s.conversations, peer).wf(),
    ensures
        ({
            let c = kept(s.conversations, peer);
            let ids = s.with_convo(peer, c.marked(peer, up_to)).confirmed_by_read(me, peer, up_to);
            &&& ids.no_duplicates()
            &&& forall|id: MessageId| #[trigger]
                ids.contains(id) <==> c.messages.contains_key(id) && c.messages[id].author == me
                    && c.messages[id].lamport <= up_to && !(s.peer_have.contains_key(peer)
                    && s.peer_have[peer].contains(id))
        }),
{
    let c = kept(s.conversations, peer);
    let u = s.with_convo(peer, c.marked(peer, up_to));
    let o = c.ordered();
    assert(u.convo(peer).ordered() == o);
    let pred = u.unread(me, peer, up_to);
    let f = o.filter(pred);
    let id_of = |m: Message| m.id;
    let ids = f.map_values(id_of);
    assert(ids == u.confirmed_by_read(me, peer, up_to));
    history_is_complete_and_causal(c);
    filter_content(o, pred);
    assert forall|i: int| 0 <= i < f.len() implies c.messages.contains_key((#[trigger] f[i]).id)
        && c.messages[f[i].id] == f[i] && pred(f[i]) by {
        assert(f.contains(f[i]));
        let j = choose|j: int| 0 <= j < o.len() && o[j] == f[i];
        assert(c.messages[o[j].id] == o[j]);
    }
    assert forall|i: int, j: int| 0 <= i < ids.len() && 0 <= j < ids.len() && i != j implies ids[i]
        != ids[j] by {
        if ids[i] == ids[j] {
            assert(c.messages[f[i].id] == f[i] && c.messages[f[j].id] == f[j]);
            assert(f[i] == f[j]);
        }
    }
    assert forall|id: MessageId| #[trigger] ids.contains(id) <==> c.messages.contains_key(id)
        && c.messages[id].author == me && c.messages[id].lamport <= up_to && !(
    s.peer_have.contains_key(peer) && s.peer_have[peer].contains(id)) by {
        if ids.contains(id) {
            let i = choose|i: int| 0 <= i < ids.len() && ids[i] == id;
            assert(pred(f[i]));
        }
        if c.messages.contains_key(id) && c.messages[id].author == me && c.messages[id].lamport
            <= up_to && !(s.peer_have.contains_key(peer) && s.peer_have[peer].contains(id)) {
            let m = c.messages[id];
            assert(m.id == id);
            assert(o.contains(m) && pred(m));
            assert(f.contains(m));
            let i = choose|i: int| 0 <= i < f.len() && f[i] == m;
            assert(ids[i] == id);
        }
    }
}

/// News of a group from a member makes it known, with everything that was said
/// of it, and gives it a conversation. What was known of it stays, as does
/// everything else. A member who is new to it asks the sender for its history.
pub proof fn group_becomes_known(
    s: StateModel,
    me: PeerKey,
    peer: PeerKey,
    info: GroupModel,
    payload: PayloadModel,
    now: u64,
)
    requires
        payload == PayloadModel::GroupInvite(info) || payload == PayloadModel::GroupAnnounce(info),
        info.members.contains(peer),
        info.members.contains(me),
    ensures
        ({
            let t = s.after_payload(me, peer, payload, now);
            let acts = s.payload_actions(me, peer, payload);
            let known = s.groups.contains_key(info.id);
            let ask = ActionModel::Send {
                peer,
                payload: t.have_payload(peer, SyncScope::Group(info.id)),
            };
            &&& t.groups.contains_key(info.id)
            &&& t.groups[info.id] == (if known {
                s.groups[info.id]
            } else {
                info
            })
            &&& t.groups.remove(info.id) == s.groups.remove(info.id)
            &&& t.group_convos.contains_key(info.id)
            &&& t.group_convos[info.id] == kept(s.group_convos, info.id)
            &&& t.group_convos.remove(info.id) == s.group_convos.remove(info.id)
            &&& t == (StateModel { groups: t.groups, group_convos: t.group_convos, ..s })
            &&& !known ==> acts.len() == 4 && acts.contains(ActionModel::SaveGroup(info.id))
                && acts.contains(ActionModel::SaveGroupConvo(info.id)) && acts.contains(
                ActionModel::Emit(EventModel::GroupInvited(info.id)),
            ) && acts.contains(ask)
            &&& known && payload is GroupAnnounce ==> acts.len() == 0
            &&& known && payload is GroupInvite ==> acts.len() == 3 && acts.contains(
                ActionModel::SaveGroup(info.id),
            ) && acts.contains(ActionModel::SaveGroupConvo(info.id)) && acts.contains(
                ActionModel::Emit(EventModel::GroupInvited(info.id)),
            )
        }),
{
    let t = s.after_payload(me, peer, payload, now);
    let acts = s.payload_actions(me, peer, payload);
    assert(t.groups.remove(info.id) =~= s.groups.remove(info.id));
    assert(t.group_convos.remove(info.id) =~= s.group_convos.remove(info.id));
    if acts.len() > 0 {
        assert(acts[0] == ActionModel::SaveGroup(info.id));
        assert(acts[1] == ActionModel::SaveGroupConvo(info.id));
        assert(acts[2] == ActionModel::Emit(EventModel::GroupInvited(info.id)));
        if acts.len() > 3 {
            assert(acts[3] == ActionModel::Send {
                peer,
                payload: t.have_payload(peer, SyncScope::Group(info.id)),
            });
        }
    }
}

/// A profile that the peer has signed and that is newer than the one we have, or
/// the first, becomes that of the contact; it is stored, and the owner is told.
/// Any other changes nothing and makes the node do nothing.
pub proof fn newer_profile_is_taken(
    s: StateModel,
    me: PeerKey,
    peer: PeerKey,
    signed: SignedProfileModel,
    now: u64,
)
    ensures
        ({
            let payload = PayloadModel::Profile(Some(signed));
            let t = s.after_payload(me, peer, payload, now);
            let acts = s.payload_actions(me, peer, payload);
            let newer = signed.valid() && signed.id == peer && s.contacts.contains_key(peer) && (
            s.contacts[peer].profile is Some ==> signed.profile.updated_at
                > s.contacts[peer].profile->0.updated_at);
            if newer {
                &&& t == (StateModel { contacts: t.contacts, ..s })
                &&& t.contacts.dom() == s.contacts.dom()
                &&& t.contacts.remove(peer) == s.contacts.remove(peer)
                &&& t.contacts[peer].profile == Some(signed.profile)
                &&& t.contacts[peer].peer == s.contacts[peer].peer
                &&& t.contacts[peer].alias == s.contacts[peer].alias
                &&& t.contacts[peer].pinned_msg_key == s.contacts[peer].pinned_msg_key
                &&& t.contacts[peer].pending_msg_key == s.contacts[peer].pending_msg_key
                &&& t.contacts[peer].last_seen == s.contacts[peer].last_seen
                &&& t.contacts[peer].added_at == s.contacts[peer].added_at
                &&& acts.len() == 2
                &&& acts.contains(ActionModel::SaveContact(peer))
                &&& acts.contains(ActionModel::Emit(EventModel::ContactUpdated(peer)))
            } else {
                &&& t == s
                &&& acts.len() == 0
            }
        }),
{
    let payload = PayloadModel::Profile(Some(signed));
    let t = s.after_payload(me, peer, payload, now);
    let acts = s.payload_actions(me, peer, payload);
    if acts.len() > 0 {
        assert(acts[0] == ActionModel::SaveContact(peer));
        assert(acts[1] == ActionModel::Emit(EventModel::ContactUpdated(peer)));
        assert(t.contacts.dom() =~= s.contacts.dom());
        assert(t.contacts.remove(peer) =~= s.contacts.remove(peer));
    }
}

} // verus!
