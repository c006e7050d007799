//! What connections, messaging keys and the owner's wishes leave behind.

#[allow(unused_imports)]
use crate::bytes::lex_lt;
#[allow(unused_imports)]
use crate::contact::ContactModel;
#[allow(unused_imports)]
use crate::convergence::in_order_exists;
#[allow(unused_imports)]
use crate::keyed::{ascending, ascending_is_in_order, in_order, key_order};
#[allow(unused_imports)]
use crate::order::{filter_content, filter_sorted, strictly_sorted};
#[allow(unused_imports)]
use crate::protocol::{ActionModel, DeliveryStatus, EventModel, PeerKey};
#[allow(unused_imports)]
use crate::ratchet::PreKeyBundle;
#[allow(unused_imports)]
use crate::reception::kept;
#[allow(unused_imports)]
use crate::state::StateModel;
#[allow(unused_imports)]
use crate::sync::{Message, MessageId};
use vstd::prelude::*;

verus! {

/// A new connection is the live one under a number that no connection had
/// before, with the bundle that the peer offered and with no session yet. The
/// peer has a conversation, in which everything that was said stays.
pub proof fn connection_becomes_live(
    s: StateModel,
    me: PeerKey,
    peer: PeerKey,
    bundle: PreKeyBundle,
    now: u64,
)
    requires
        s.next_gen < u64::MAX,
    ensures
        ({
            let t = s.registered(me, peer, bundle, now);
            &&& t.is_live(peer, s.next_gen)
            &&& t.conns.contains_key(peer) && t.conns[peer] == s.next_gen
            &&& t.next_gen == s.next_gen + 1
            &&& t.conns.remove(peer) == s.conns.remove(peer)
            &&& t.bundles.contains_key(peer) && t.bundles[peer] == bundle
            &&& t.bundles.remove(peer) == s.bundles.remove(peer)
            &&& t.sessions == s.sessions.remove(peer)
            &&& t.inbound_sessions == s.inbound_sessions.remove(peer)
            &&& t.conversations.contains_key(peer)
            &&& t.conversations[peer] == kept(s.conversations, peer)
            &&& t.conversations.remove(peer) == s.conversations.remove(peer)
            &&& t.pending_post_connect.contains(peer) <==> !lex_lt(me@, peer@)
                || s.pending_post_connect.contains(peer)
            &&& t.pending_post_connect.remove(peer) == s.pending_post_connect.remove(peer)
            &&& t.discovered == s.discovered
            &&& t.pending_files == s.pending_files
            &&& t.groups == s.groups
            &&& t.group_convos == s.group_convos
            &&& t.peer_have == s.peer_have
            &&& t.queued == s.queued
            &&& t.startup_warnings == s.startup_warnings
        }),
{
    let t = s.registered(me, peer, bundle, now);
    assert(t.conns.remove(peer) =~= s.conns.remove(peer));
    assert(t.bundles.remove(peer) =~= s.bundles.remove(peer));
    assert(t.conversations.remove(peer) =~= s.conversations.remove(peer));
    assert(t.conversations[peer] =~= kept(s.conversations, peer));
    assert(t.pending_post_connect.remove(peer) =~= s.pending_post_connect.remove(peer));
}

/// Whoever connects is a contact from then on, seen at that time. What was known
/// of a contact stays but for its messaging keys; one that is new has its key
/// pinned and nothing else.
pub proof fn connection_makes_a_contact(
    s: StateModel,
    me: PeerKey,
    peer: PeerKey,
    bundle: PreKeyBundle,
    now: u64,
)
    ensures
        ({
            let t = s.registered(me, peer, bundle, now);
            let acts = s.register_actions(me, peer, bundle, now);
            let c = t.contacts[peer];
            let known = s.contacts.contains_key(peer);
            let old = s.contacts[peer];
            &&& t.contacts.contains_key(peer)
            &&& c.last_seen == now
            &&& t.contacts.remove(peer) == s.contacts.remove(peer)
            &&& known ==> {
                &&& c.peer == old.peer
                &&& c.profile == old.profile
                &&& c.alias == old.alias
                &&& c.added_at == old.added_at
            }
            &&& !known ==> {
                &&& c.peer == peer
                &&& c.profile is None
                &&& c.alias is None
                &&& c.added_at == now
                &&& c.pinned_msg_key == Some(bundle.identity_key)
                &&& c.pending_msg_key is None
            }
            &&& acts.contains(ActionModel::SaveContact(peer))
            &&& acts.contains(ActionModel::Emit(EventModel::PeerConnected(peer)))
            &&& !known <==> acts.contains(ActionModel::Emit(EventModel::ContactUpdated(peer)))
            &&& lex_lt(me@, peer@) <==> acts.contains(ActionModel::PostConnect(peer))
            &&& forall|i: int|
                0 <= i < acts.len() ==> !((#[trigger] acts[i]) is Send)
        }),
{
    let t = s.registered(me, peer, bundle, now);
    let acts = s.register_actions(me, peer, bundle, now);
    let known = s.contacts.contains_key(peer);
    assert(t.contacts.remove(peer) =~= s.contacts.remove(peer));
    let keys = s.connected(peer, bundle, now).key_actions(peer, bundle.identity_key);
    let n = 1 + keys.len() as int;
    assert(acts[0] == ActionModel::SaveContact(peer));
    assert forall|i: int| 0 <= i < keys.len() implies acts[1 + i] == #[trigger] keys[i] by {}
    if known {
        assert(acts[n] == ActionModel::Emit(EventModel::PeerConnected(peer)));
        if lex_lt(me@, peer@) {
            assert(acts[n + 1] == ActionModel::PostConnect(peer));
        }
    } else {
        assert(acts[n] == ActionModel::Emit(EventModel::ContactUpdated(peer)));
        assert(acts[n + 1] == ActionModel::Emit(EventModel::PeerConnected(peer)));
        if lex_lt(me@, peer@) {
            assert(acts[n + 2] == ActionModel::PostConnect(peer));
        }
    }
}

/// The first messaging key of a contact is pinned. The same key again leaves
/// nothing waiting; another one waits beside it, and only then is the owner
/// warned. Nothing else changes.
pub proof fn messaging_key_is_pinned(s: StateModel, peer: PeerKey, key: [u8; 32])
    requires
        s.contacts.contains_key(peer),
    ensures
        ({
            let t = s.after_key(peer, key);
            let acts = s.key_actions(peer, key);
            let old = s.contacts[peer];
            let c = t.contacts[peer];
            &&& t == (StateModel { contacts: t.contacts, ..s })
            &&& t.contacts.contains_key(peer)
            &&& t.contacts.remove(peer) == s.contacts.remove(peer)
            &&& c.peer == old.peer
            &&& c.profile == old.profile
            &&& c.alias == old.alias
            &&& c.last_seen == old.last_seen
            &&& c.added_at == old.added_at
            &&& c.pinned_msg_key == (if old.pinned_msg_key is Some {
                old.pinned_msg_key
            } else {
                Some(key)
            })
            &&& old.pinned_msg_key is None ==> c.pending_msg_key == old.pending_msg_key
            &&& old.pinned_msg_key == Some(key) ==> c.pending_msg_key is None
            &&& old.pinned_msg_key is Some && old.pinned_msg_key != Some(key) ==> c.pending_msg_key
                == Some(key)
            &&& acts.contains(ActionModel::SaveContact(peer))
            &&& (exists|i: int|
                0 <= i < acts.len() && (#[trigger] acts[i]) is Emit) <==> old.pinned_msg_key is Some
                && old.pinned_msg_key != Some(key)
            &&& forall|i: int|
                0 <= i < acts.len() && (#[trigger] acts[i]) is Emit ==> {
                    &&& acts[i]->Emit_0 is PinWarning
                    &&& acts[i]->Emit_0->PinWarning_peer == peer
                }
        }),
{
    let t = s.after_key(peer, key);
    let acts = s.key_actions(peer, key);
    assert(t.contacts.remove(peer) =~= s.contacts.remove(peer));
    assert(acts[0] == ActionModel::SaveContact(peer));
    if s.contacts[peer].pinned_msg_key is Some && s.contacts[peer].pinned_msg_key != Some(key) {
        assert(acts[1] is Emit);
    }
}

/// A messaging key of somebody who is no contact changes nothing.
pub proof fn key_of_a_stranger_is_ignored(s: StateModel, peer: PeerKey, key: [u8; 32])
    requires
        !s.contacts.contains_key(peer),
    ensures
        s.after_key(peer, key) == s,
        s.key_actions(peer, key).len() == 0,
{
}

/// When the live connection closes, it and its sessions are gone and the contact
/// was seen at that time. Everything else stays: what was said, what waits to be
/// sent, and what the peer has confirmed.
pub proof fn closing_keeps_what_was_said(
    s: StateModel,
    peer: PeerKey,
    generation: u64,
    now: u64,
)
    requires
        s.conns.contains_key(peer),
        s.conns[peer] == generation,
    ensures
        ({
            let t = s.disconnected(peer, generation, now);
            &&& t.conns == s.conns.remove(peer)
            &&& t.sessions == s.sessions.remove(peer)
            &&& t.inbound_sessions == s.inbound_sessions.remove(peer)
            &&& t.conversations == s.conversations
            &&& t.group_convos == s.group_convos
            &&& t.groups == s.groups
            &&& t.queued == s.queued
            &&& t.peer_have == s.peer_have
            &&& t.bundles == s.bundles
            &&& t.next_gen == s.next_gen
            &&& t.discovered == s.discovered
            &&& t.pending_files == s.pending_files
            &&& t.pending_post_connect == s.pending_post_connect
            &&& t.contacts.dom() == s.contacts.dom()
            &&& t.contacts.remove(peer) == s.contacts.remove(peer)
            &&& s.contacts.contains_key(peer) ==> {
                &&& t.contacts[peer].last_seen == now
                &&& t.contacts[peer].peer == s.contacts[peer].peer
                &&& t.contacts[peer].profile == s.contacts[peer].profile
                &&& t.contacts[peer].alias == s.contacts[peer].alias
                &&& t.contacts[peer].pinned_msg_key == s.contacts[peer].pinned_msg_key
                &&& t.contacts[peer].pending_msg_key == s.contacts[peer].pending_msg_key
                &&& t.contacts[peer].added_at == s.contacts[peer].added_at
            }
        }),
{
    let t = s.disconnected(peer, generation, now);
    assert(t.contacts.dom() =~= s.contacts.dom());
    assert(t.contacts.remove(peer) =~= s.contacts.remove(peer));
}

/// A message that could not be sent is queued for its peer, beside what was
/// queued before; nothing else changes.
pub proof fn unsent_message_is_queued(s: StateModel, peer: PeerKey, id: MessageId)
    ensures
        ({
            let t = s.with_queued(peer, id);
            &&& t == (StateModel { queued: t.queued, ..s })
            &&& t.queued.contains_key(peer)
            &&& forall|x: MessageId| #[trigger]
                t.queued[peer].contains(x) <==> x == id || (s.queued.contains_key(peer)
                    && s.queued[peer].contains(x))
            &&& t.queued.remove(peer) == s.queued.remove(peer)
        }),
{
    assert(s.with_queued(peer, id).queued.remove(peer) =~= s.queued.remove(peer));
}

/// Only a message of our own has a status. It is delivered just where the peer
/// has named it or has read up to it; else it is queued while it waits, and sent
/// otherwise.
pub proof fn status_tells_how_far_a_message_got(
    s: StateModel,
    me: PeerKey,
    peer: PeerKey,
    m: Message,
)
    ensures
        ({
            let status = s.status(me, peer, m);
            let c = s.conversations[peer];
            let named = s.peer_have.contains_key(peer) && s.peer_have[peer].contains(m.id);
            let read = s.conversations.contains_key(peer) && (m.lamport == 0
                || c.read.contains_key(peer) && c.read[peer] >= m.lamport);
            let waits = s.queued.contains_key(peer) && s.queued[peer].contains(m.id);
            &&& status is Some <==> m.author == me
            &&& status == Some(DeliveryStatus::Delivered) <==> m.author == me && (named || read)
            &&& status == Some(DeliveryStatus::Queued) <==> m.author == me && !named && !read
                && waits
            &&& status == Some(DeliveryStatus::Sent) <==> m.author == me && !named && !read
                && !waits
        }),
{
}

/// A message goes from queued to delivered: queued where it could not be sent,
/// and delivered when the peer says that it holds it; the status of every other
/// message stays.
pub proof fn status_moves_on(
    s: StateModel,
    me: PeerKey,
    peer: PeerKey,
    m: Message,
    other: Message,
    ids: Set<MessageId>,
)
    requires
        m.author == me,
        other.id != m.id,
    ensures
        s.status(me, peer, m) == Some(DeliveryStatus::Sent) ==> s.with_queued(peer, m.id).status(
            me,
            peer,
            m,
        ) == Some(DeliveryStatus::Queued),
        s.with_queued(peer, m.id).status(me, peer, other) == s.status(me, peer, other),
        ids.contains(m.id) ==> s.confirmed(peer, ids).status(me, peer, m) == Some(
            DeliveryStatus::Delivered,
        ),
        !ids.contains(m.id) ==> s.confirmed(peer, ids).status(me, peer, m) == s.status(me, peer, m),
{
}

/// The peers nearby are those that are visible and no contacts, each once and in
/// the order of their ids.
pub proof fn strangers_are_nearby(s: StateModel)
    requires
        s.discovered.finite(),
    ensures
        ({
            let nearby = in_order(s.discovered).filter(s.is_stranger());
            &&& nearby.no_duplicates()
            &&& ascending(nearby)
            &&& forall|p: PeerKey| #[trigger]
                nearby.contains(p) <==> s.discovered.contains(p) && !s.contacts.contains_key(p)
        }),
{
    let all = in_order(s.discovered);
    let nearby = all.filter(s.is_stranger());
    in_order_exists(s.discovered);
    ascending_is_in_order(all);
    filter_content(all, s.is_stranger());
    assert(strictly_sorted(all, key_order())) by {
        assert forall|i: int, j: int| 0 <= i < j < all.len() implies key_order::<32>()(
            #[trigger] all[i],
            #[trigger] all[j],
        ) by {
            assert(lex_lt(all[i]@, all[j]@));
        }
    }
    filter_sorted(all, s.is_stranger(), key_order());
    assert forall|i: int, j: int| 0 <= i < j < nearby.len() implies lex_lt(
        #[trigger] nearby[i]@,
        #[trigger] nearby[j]@,
    ) by {
        assert(key_order::<32>()(nearby[i], nearby[j]));
    }
    assert forall|p: PeerKey| #[trigger] nearby.contains(p) <==> s.discovered.contains(p)
        && !s.contacts.contains_key(p) by {
        assert(all.contains(p) == all.to_set().contains(p));
    }
}

/// A contact has a name where the owner or the contact has given it one, and the
/// owner's comes first. No name is empty.
pub proof fn owner_names_come_first(c: ContactModel)
    ensures
        c.name() is Some ==> c.name()->0.len() > 0,
        c.alias is Some && c.alias->0.len() > 0 ==> c.name() == c.alias,
        (c.alias is None || c.alias->0.len() == 0) && c.profile is Some
            && c.profile->0.display_name.len() > 0 ==> c.name() == Some(c.profile->0.display_name),
        c.name() is None <==> (c.alias is None || c.alias->0.len() == 0) && (c.profile is None
            || c.profile->0.display_name.len() == 0),
{
}

/// The exchange after a connection that waits for a session takes place as soon
/// as there is one, and waits no more; where it does not wait, or there is no
/// session, nothing happens.
pub proof fn waiting_exchange_is_let_go(s: StateModel, peer: PeerKey)
    ensures
        ({
            let due = s.pending_post_connect.contains(peer) && s.sessions.contains_key(peer);
            let t = s.flushed(peer);
            let acts = s.flush_actions(peer);
            &&& due ==> acts.len() == 1 && acts[0] == ActionModel::PostConnect(peer)
            &&& !due ==> acts.len() == 0 && t == s
            &&& due ==> !t.pending_post_connect.contains(peer)
            &&& forall|p: PeerKey|
                p != peer ==> #[trigger] t.pending_post_connect.contains(p)
                    == s.pending_post_connect.contains(p)
            &&& t == (StateModel { pending_post_connect: t.pending_post_connect, ..s })
        }),
{
}

} // verus!
