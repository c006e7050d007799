//! What the calls that take in what arrives do, told by what goes in and what
//! comes out.

#[allow(unused_imports)]
use crate::blobs::{BlobError, FileMeta};
#[allow(unused_imports)]
use crate::bytes::lex_lt;
#[allow(unused_imports)]
use crate::contact::ContactModel;
#[allow(unused_imports)]
use crate::crypto::opened;
#[allow(unused_imports)]
use crate::effects::new_message_is_unread;
#[allow(unused_imports)]
use crate::identity::{accepts, profile_json, SignedProfile};
#[allow(unused_imports)]
use crate::lifecycle::FrameOutcome;
#[allow(unused_imports)]
use crate::node::{after_trying, Decrypted, Node, ReadStep, SessionError};
#[allow(unused_imports)]
use crate::protocol::{
    action_models, Action, ActionModel, EngineEvent, EventModel, GroupId, GroupInfo, Payload,
    PayloadModel, PeerKey, PendingFile, TransferId, Wire,
};
#[allow(unused_imports)]
use crate::ratchet::{
    ciphertext_of, is_accepted, is_ciphertext, Messages, PreKeyBundle, RatchetError,
    RatchetSession, PREKEY_TYPE,
};
#[allow(unused_imports)]
use crate::reception::{
    delivered_event, kept, message_of_a_peer_is_held, message_of_a_peer_is_told,
    read_mark_of_a_peer_confirms, read_mark_of_a_peer_is_told,
};
#[allow(unused_imports)]
use crate::state::{State, StateModel};
#[allow(unused_imports)]
use crate::sync::{Message, MessageId, MessageKind};
#[allow(unused_imports)]
use crate::transfer::{BlobTransfer, OfferStep, OFFER_POLLS};
use vstd::prelude::*;

verus! {

/// A text or an offer of a file that arrives is held in the conversation with
/// its sender, whatever time it bears and whatever else was going on, and the
/// owner is told of it. What is held already stays, and no other conversation is
/// touched.
pub proof fn arriving_message_is_held(
    node: &mut Node,
    peer: PeerKey,
    payload: Payload,
    m: Message,
    key: [u8; 32],
    now: u64,
    r: Vec<Action>,
)
    requires
        call_ensures(Node::handle_payload, (node, peer, payload, now), r),
        payload == Payload::Chat(m) || payload == (Payload::FileOffer { message: m, key }),
    ensures
        ({
            let s = old(node).state@;
            let t = final(node).state@;
            let before = kept(s.conversations, peer);
            let after = t.conversations[peer];
            &&& t.conversations.contains_key(peer)
            &&& after.messages.contains_key(m.id)
            &&& !before.messages.contains_key(m.id) ==> after.messages[m.id] == m
            &&& forall|id: MessageId| #[trigger]
                before.messages.contains_key(id) ==> after.messages.contains_key(id)
                    && after.messages[id] == before.messages[id]
            &&& forall|id: MessageId| #[trigger]
                after.messages.contains_key(id) ==> id == m.id || before.messages.contains_key(id)
            &&& after.lamport >= m.lamport
            &&& after.lamport >= before.lamport
            &&& forall|p: PeerKey|
                p != peer ==> #[trigger] kept(t.conversations, p) == kept(s.conversations, p)
            &&& t.group_convos == s.group_convos
            &&& t.groups == s.groups
            &&& t.queued == s.queued
            &&& t.peer_have == s.peer_have
            &&& action_models(r@).contains(
                ActionModel::Emit(EventModel::MessageReceived { peer, message: m }),
            )
            &&& action_models(r@).contains(ActionModel::SaveConvo(peer))
            &&& final(node).id == old(node).id
        }),
{
    let s = old(node).state@;
    let u = s.flushed(peer);
    let me = old(node).id;
    message_of_a_peer_is_held(u, me, peer, m, key, payload@, now);
    message_of_a_peer_is_told(u, me, peer, m, key, payload@, now);
    let first = s.flush_actions(peer);
    let rest = u.payload_actions(me, peer, payload@);
    later_actions_are_there(first, rest);
    let t = final(node).state@;
    assert forall|p: PeerKey| p != peer implies #[trigger] kept(t.conversations, p) == kept(
        s.conversations,
        p,
    ) by {
        assert(t.conversations.contains_key(p) == u.conversations.contains_key(p));
    }
}

/// What follows is among what is done.
proof fn later_actions_are_there(first: Seq<ActionModel>, rest: Seq<ActionModel>)
    ensures
        forall|a: ActionModel| #[trigger] rest.contains(a) ==> (first + rest).contains(a),
{
    assert forall|a: ActionModel| #[trigger] rest.contains(a) implies (first + rest).contains(a) by {
        let i = choose|i: int| 0 <= i < rest.len() && rest[i] == a;
        assert((first + rest)[first.len() + i] == a);
    }
}

/// A profile that the peer did not sign, or that is no newer than the one we
/// have, or that is of somebody who is no contact, changes nothing.
pub proof fn forged_profile_changes_nothing(
    state: &mut State,
    peer: PeerKey,
    signed: &SignedProfile,
    r: Vec<Action>,
)
    requires
        call_ensures(State::take_profile, (state, peer, signed), r),
        ({
            let s = old(state)@;
            ||| !accepts(signed.id@, profile_json(signed.profile@), signed.sig@)
            ||| signed.id != peer
            ||| !s.contacts.contains_key(peer)
            ||| s.contacts[peer].profile is Some && s.contacts[peer].profile->0.updated_at
                >= signed.profile.updated_at
        }),
    ensures
        final(state)@ == old(state)@,
        r@.len() == 0,
{
}

/// A newer profile that the peer has signed is that of the contact from then on.
pub proof fn signed_profile_is_taken(
    state: &mut State,
    peer: PeerKey,
    signed: &SignedProfile,
    r: Vec<Action>,
)
    requires
        call_ensures(State::take_profile, (state, peer, signed), r),
        signed@.valid(),
        signed.id == peer,
        old(state)@.contacts.contains_key(peer),
        old(state)@.contacts[peer].profile is Some ==> old(
            state,
        )@.contacts[peer].profile->0.updated_at < signed.profile.updated_at,
    ensures
        ({
            let s = old(state)@;
            let t = final(state)@;
            &&& t.contacts.contains_key(peer)
            &&& t.contacts[peer].profile == Some(signed.profile@)
            &&& t.contacts[peer] == (ContactModel {
                profile: t.contacts[peer].profile,
                ..s.contacts[peer]
            })
            &&& t.contacts.remove(peer) == s.contacts.remove(peer)
            &&& t == (StateModel { contacts: t.contacts, ..s })
            &&& action_models(r@).contains(ActionModel::SaveContact(peer))
            &&& action_models(r@).contains(ActionModel::Emit(EventModel::ContactUpdated(peer)))
        }),
{
    assert(final(state)@.contacts.remove(peer) =~= old(state)@.contacts.remove(peer));
    assert(action_models(r@)[0] == ActionModel::SaveContact(peer));
    assert(action_models(r@)[1] == ActionModel::Emit(EventModel::ContactUpdated(peer)));
}

/// A group that a peer tells of is known afterwards, with a conversation in which
/// everything stays; what was known of it stays too.
pub proof fn group_is_learned(state: &mut State, info: GroupInfo, fresh: bool)
    requires
        call_ensures(State::learn_group, (state, info), fresh),
    ensures
        ({
            let s = old(state)@;
            let t = final(state)@;
            &&& fresh <==> !s.groups.contains_key(info.id)
            &&& t.groups.contains_key(info.id)
            &&& fresh ==> t.groups[info.id] == info@
            &&& !fresh ==> t.groups == s.groups
            &&& t.groups.remove(info.id) == s.groups.remove(info.id)
            &&& t.group_convos.contains_key(info.id)
            &&& forall|g: GroupId| #[trigger] kept(t.group_convos, g) == kept(s.group_convos, g)
            &&& t == (StateModel { groups: t.groups, group_convos: t.group_convos, ..s })
        }),
{
    let s = old(state)@;
    let t = final(state)@;
    assert(t.groups.remove(info.id) =~= s.groups.remove(info.id));
    assert forall|g: GroupId| #[trigger] kept(t.group_convos, g) == kept(s.group_convos, g) by {
        assert(kept(t.group_convos, g) =~= kept(s.group_convos, g));
    }
}

/// A read mark of a peer reaches the conversation, confirms our messages up to
/// its time, and is told to the owner, once for each message that was not
/// confirmed before.
pub proof fn arriving_read_mark_confirms(
    node: &mut Node,
    peer: PeerKey,
    up_to: u64,
    id: MessageId,
    r: FrameOutcome,
)
    requires
        call_ensures(Node::handle_frame, (node, peer, Wire::Read { up_to }), r),
        kept(old(node).state@.conversations, peer).wf(),
    ensures
        ({
            let s = old(node).state@;
            let t = final(node).state@;
            let c = kept(s.conversations, peer);
            let acts = action_models(r.actions@);
            let known = s.peer_have.contains_key(peer) && s.peer_have[peer].contains(id);
            let reached = c.messages.contains_key(id) && c.messages[id].author == old(node).id
                && c.messages[id].lamport <= up_to;
            &&& t.conversations.contains_key(peer)
            &&& t.conversations[peer].messages == c.messages
            &&& t.conversations[peer].read.contains_key(peer)
            &&& t.conversations[peer].read[peer] >= up_to
            &&& t.peer_have.contains_key(peer)
            &&& t.peer_have[peer].contains(id) <==> known || reached
            &&& reached && !known && s.queued.contains_key(peer) ==> !t.queued[peer].contains(id)
            &&& acts.contains(ActionModel::SaveConvo(peer))
            &&& acts.contains(ActionModel::Emit(EventModel::ReadReceipt { peer, up_to }))
            &&& acts.contains(delivered_event(peer, id)) <==> reached && !known
            &&& acts.no_duplicates()
        }),
{
    let s = old(node).state@;
    let me = old(node).id;
    let c = kept(s.conversations, peer);
    assert(c =~= s.convo(peer));
    read_mark_of_a_peer_confirms(s, me, peer, up_to);
    read_mark_of_a_peer_is_told(s, me, peer, up_to);
    let acts = action_models(r.actions@);
    let first = seq![
        ActionModel::SaveConvo(peer),
        ActionModel::Emit(EventModel::ReadReceipt { peer, up_to }),
    ];
    let ids = s.with_convo(peer, c.marked(peer, up_to)).confirmed_by_read(me, peer, up_to);
    let news = crate::delivery::delivered_news(peer, ids);
    assert(acts == first + news);
    assert(acts[0] == first[0]);
    assert(acts[1] == first[1]);
    later_actions_are_there(first, news);
    assert forall|i: int| 0 <= i < news.len() implies #[trigger] news[i] == delivered_event(
        peer,
        ids[i],
    ) by {}
    if acts.contains(delivered_event(peer, id)) {
        let i = choose|i: int| 0 <= i < acts.len() && acts[i] == delivered_event(peer, id);
        assert(i >= 2);
        assert(news[i - 2] == delivered_event(peer, id));
    }
    assert forall|i: int, j: int| 0 <= i < acts.len() && 0 <= j < acts.len() && i != j implies acts[i]
        != acts[j] by {
        if i >= 2 {
            assert(acts[i] == news[i - 2]);
        }
        if j >= 2 {
            assert(acts[j] == news[j - 2]);
        }
    }
}

/// That a peer is typing, or is there or not, is told to the owner and changes
/// nothing.
pub proof fn arriving_presence_is_told(
    node: &mut Node,
    peer: PeerKey,
    wire: Wire,
    r: FrameOutcome,
)
    requires
        call_ensures(Node::handle_frame, (node, peer, wire), r),
        wire is Typing || wire is Presence,
    ensures
        final(node).state@ == old(node).state@,
        r.plaintext is None,
        r.actions@.len() == 1,
        action_models(r.actions@)[0] == ActionModel::Emit(
            match wire {
                Wire::Presence { online } => EventModel::PresenceChanged { peer, online },
                _ => EventModel::Typing(peer),
            },
        ),
{
    assert(action_models(r.actions@).len() == r.actions@.len());
}

/// An offered file whose bytes all arrived as announced is received, under its
/// own name, and no longer expected; any other has failed and changes nothing.
pub proof fn file_is_received_or_failed(
    state: &mut State,
    transfer: BlobTransfer,
    flushed: bool,
    path: String,
    r: EngineEvent,
)
    requires
        call_ensures(State::finish_blob, (state, transfer, flushed, path), r),
    ensures
        ({
            let s = old(state)@;
            let t = final(state)@;
            let f = transfer@;
            let good = flushed && crate::identity::sha256(f.sink.received) == f.expected@;
            &&& r@ is FileReceived <==> good
            &&& r@ is FileFailed <==> !good
            &&& r@ matches EventModel::FileReceived { peer, transfer_id, name, path: at } ==> {
                &&& peer == f.peer
                &&& transfer_id == f.transfer_id
                &&& name == f.name
                &&& at == path@
                &&& !t.pending_files.contains_key(f.transfer_id)
            }
            &&& r@ matches EventModel::FileFailed { peer, transfer_id, name, reason } ==> {
                &&& peer == f.peer
                &&& transfer_id == f.transfer_id
                &&& name == f.name
                &&& t == s
            }
            &&& t.pending_files.remove(f.transfer_id) == s.pending_files.remove(f.transfer_id)
            &&& t == (StateModel { pending_files: t.pending_files, ..s })
        }),
{
    let s = old(state)@;
    let t = final(state)@;
    let id = transfer@.transfer_id;
    assert(t.pending_files.remove(id) =~= s.pending_files.remove(id));
}

/// A chunk of a file is put behind what was received before, and is handed on to
/// be stored; one that cannot be opened changes nothing, and the transfer has
/// failed.
pub proof fn chunks_are_put_together(
    transfer: &mut BlobTransfer,
    chunk: &[u8],
    r: Result<Vec<u8>, EngineEvent>,
)
    requires
        call_ensures(BlobTransfer::on_chunk, (transfer, chunk), r),
    ensures
        ({
            let s = old(transfer)@;
            let t = final(transfer)@;
            &&& r is Ok <==> opened(s.sink.key, chunk@) is Ok
            &&& r is Ok ==> opened(s.sink.key, chunk@)->Ok_0 == r->Ok_0@ && t.sink.received
                == s.sink.received + r->Ok_0@
            &&& r is Err ==> t == s && r->Err_0@ is FileFailed
            &&& r is Err ==> r->Err_0@->FileFailed_transfer_id == s.transfer_id
                && r->Err_0@->FileFailed_peer == s.peer && r->Err_0@->FileFailed_name == s.name
            &&& t.sink.key == s.sink.key
            &&& t.expected == s.expected
            &&& t.name == s.name
            &&& t.peer == s.peer
            &&& t.transfer_id == s.transfer_id
        }),
{
}

/// A file that is offered to a peer is a new message of our own in the
/// conversation, later than everything in it; what is sent holds that message and
/// the key of the file. It is stored, and nothing else changes.
pub proof fn offered_file_is_held(
    node: &mut Node,
    peer: PeerKey,
    meta: &FileMeta,
    now: u64,
    r: (Payload, Vec<Action>),
)
    requires
        call_ensures(Node::offer_file, (node, peer, meta, now), r),
        kept(old(node).state@.conversations, peer).wf(),
        kept(old(node).state@.conversations, peer).lamport < u64::MAX,
    ensures
        ({
            let s = old(node).state@;
            let t = final(node).state@;
            let before = kept(s.conversations, peer);
            let after = t.conversations[peer];
            r.0@ matches PayloadModel::FileOffer { message: m, key } && {
                &&& key == meta.key
                &&& m.author == old(node).id
                &&& m.sent_at == now
                &&& m.kind matches MessageKind::File(f) && f.transfer_id == meta.transfer_id
                    && f.sha256 == meta.sha256 && f.name == meta.name && f.size == meta.size
                    && f.mime == meta.mime
                &&& t.conversations.contains_key(peer)
                &&& after.wf()
                &&& after.messages.contains_key(m.id) && after.messages[m.id] == m
                &&& after.messages.remove(m.id) == before.messages.remove(m.id)
                &&& after.lamport == m.lamport
                &&& m.lamport > before.lamport
                &&& t.conversations.remove(peer) == s.conversations.remove(peer)
                &&& t == (StateModel { conversations: t.conversations, ..s })
                &&& action_models(r.1@).contains(ActionModel::SaveConvo(peer))
                &&& r.1@.len() == 1
            }
        }),
{
    let s = old(node).state@;
    let t = final(node).state@;
    let before = kept(s.conversations, peer);
    assert(before =~= s.convo(peer));
    let m = r.0@->FileOffer_message;
    assert(t.conversations[peer].messages.remove(m.id) =~= before.messages.remove(m.id));
    assert(t.conversations.remove(peer) =~= s.conversations.remove(peer));
    assert(action_models(r.1@)[0] == ActionModel::SaveConvo(peer));
}

/// What one node encrypts for another on a session, the other reads: the same
/// bytes come out, and the session is as ready for the next as it was before.
pub proof fn encrypted_payload_is_read(
    sender: &mut Node,
    receiver: &mut Node,
    x: PeerKey,
    y: PeerKey,
    plaintext: &[u8],
    sent: &[u8],
    e: Result<Vec<u8>, SessionError>,
    d: Result<Decrypted, SessionError>,
)
    requires
        old(sender).state@.sessions.contains_key(y),
        old(receiver).state@.sessions.contains_key(x),
        old(receiver).state@.sessions[x].awaits(old(sender).state@.sessions[y], Seq::empty()),
        call_ensures(Node::encrypt_for, (sender, y, plaintext), e),
        e is Ok ==> sent@ == e->Ok_0@,
        old(sender).state@.sessions[y].chain() is Some || !old(receiver).state@.sessions[x].repeats(
            sent@,
        ),
        call_ensures(Node::decrypt_payload, (receiver, x, sent), d),
    ensures
        e is Ok,
        d is Ok,
        d->Ok_0.plaintext@ == plaintext@,
        final(receiver).state@.sessions[x].awaits(final(sender).state@.sessions[y], Seq::empty()),
{
    let from = old(sender).state@.sessions[y];
    let after = final(sender).state@.sessions[y];
    let to = old(receiver).state@.sessions[x];
    let none: Messages = Seq::empty();
    assert(to.awaits(from, none));
    assert(after.sent_to(from, to, none, plaintext@, sent@));
    let one = none.push((ciphertext_of(sent@)->0, plaintext@));
    assert(to.awaits(after, one));
    assert(one[0].1 == plaintext@);
    assert(to.expects(after, one, 0, sent@));
    assert(one.remove(0) =~= none);
}

/// The first payload for a peer is read too: with the bundle that the peer has
/// offered and still owns it opens a session, and the same bytes come out.
pub proof fn first_payload_is_read(
    sender: &mut Node,
    receiver: &mut Node,
    x: PeerKey,
    y: PeerKey,
    plaintext: &[u8],
    sent: &[u8],
    e: Result<Vec<u8>, SessionError>,
    d: Result<Decrypted, SessionError>,
)
    requires
        !old(sender).state@.sessions.contains_key(y),
        old(sender).state@.bundles.contains_key(y),
        old(receiver).messaging.owns(old(sender).state@.bundles[y]),
        !old(receiver).state@.sessions.contains_key(x),
        !old(receiver).state@.inbound_sessions.contains_key(x),
        old(receiver).state@.bundles.contains_key(x),
        old(receiver).state@.bundles[x].identity_key@ == old(sender).messaging@.identity_key,
        call_ensures(Node::encrypt_for, (sender, y, plaintext), e),
        e is Ok,
        sent@ == e->Ok_0@,
        call_ensures(Node::decrypt_payload, (receiver, x, sent), d),
    ensures
        d is Ok,
        d->Ok_0.plaintext@ == plaintext@,
        d->Ok_0.accepted,
        final(sender).state@.sessions.contains_key(y),
        final(receiver).state@.sessions.contains_key(x),
{
    let s = old(receiver).state@;
    let account = old(receiver).messaging;
    assert(account.opens(old(sender).messaging@.identity_key, sent@) == Some(plaintext@));
    assert(s.opening_of(account, x, sent@) == Some(plaintext@));
    assert(d is Ok);
    assert(!s.can_read(x, sent@, d->Ok_0.plaintext@));
}

/// Without a session and without a bundle nothing can be encrypted for a peer,
/// and nothing changes but in the sessions with that peer in any case.
pub proof fn encryption_needs_a_bundle(
    node: &mut Node,
    peer: PeerKey,
    plaintext: &[u8],
    r: Result<Vec<u8>, SessionError>,
)
    requires
        call_ensures(Node::encrypt_for, (node, peer, plaintext), r),
    ensures
        ({
            let s = old(node).state@;
            let t = final(node).state@;
            let helpless = !s.sessions.contains_key(peer) && !s.bundles.contains_key(peer);
            &&& helpless <==> r == Err::<Vec<u8>, SessionError>(SessionError::NoBundle)
            &&& t == (StateModel { sessions: t.sessions, ..s })
            &&& t.sessions.remove(peer) == s.sessions.remove(peer)
            &&& r is Ok ==> t.sessions.contains_key(peer)
        }),
{
    if r is Ok {
        assert(final(node).state@.sessions.dom().contains(peer));
    }
}

/// A ciphertext is read with whatever session made something of it; it is tried
/// as the opening of a new one only where none did, and given up where there is
/// no key for that or where a session has refused what is no opening.
pub proof fn every_session_is_tried(
    sending: Option<Result<Vec<u8>, RatchetError>>,
    reading: Option<Vec<u8>>,
    prekey: bool,
    key: Option<[u8; 32]>,
    r: ReadStep,
)
    requires
        call_ensures(after_trying, (sending, reading, prekey, key), r),
    ensures
        r is Read <==> reading is Some || (sending is Some && sending->0 is Ok),
        sending is Some && sending->0 is Ok ==> r->Read_0 == sending->0->Ok_0,
        !(sending is Some && sending->0 is Ok) && reading is Some ==> r->Read_0 == reading->0,
        r is Open <==> !(r is Read) && key is Some && (prekey || sending is None),
        r is Open ==> r->Open_0 == key->0,
{
}

/// What a peer greets with is kept: its bundle, and its messaging key, which is
/// pinned where it is the first of that contact and waits where it is another.
pub proof fn greeting_is_kept(node: &mut Node, peer: PeerKey, bundle: PreKeyBundle, r: FrameOutcome)
    requires
        call_ensures(Node::handle_frame, (node, peer, Wire::Hello { bundle }), r),
    ensures
        ({
            let s = old(node).state@;
            let t = final(node).state@;
            let key = bundle.identity_key;
            let known = s.contacts.contains_key(peer);
            let pinned = s.contacts[peer].pinned_msg_key;
            &&& t.bundles.contains_key(peer) && t.bundles[peer] == bundle
            &&& t.bundles.remove(peer) == s.bundles.remove(peer)
            &&& t.contacts.dom() == s.contacts.dom()
            &&& t.contacts.remove(peer) == s.contacts.remove(peer)
            &&& known && pinned is None ==> t.contacts[peer].pinned_msg_key == Some(key)
            &&& known && pinned is Some ==> t.contacts[peer].pinned_msg_key == pinned
            &&& known && pinned is Some && pinned != Some(key) ==> t.contacts[peer].pending_msg_key
                == Some(key)
            &&& known && pinned == Some(key) ==> t.contacts[peer].pending_msg_key is None
            &&& t == (StateModel { bundles: t.bundles, contacts: t.contacts, ..s })
            &&& known ==> action_models(r.actions@).contains(ActionModel::SaveContact(peer))
            &&& r.plaintext is None
        }),
{
    let s = old(node).state@;
    let t = final(node).state@;
    assert(t.bundles.remove(peer) =~= s.bundles.remove(peer));
    assert(t.contacts.dom() =~= s.contacts.dom());
    assert(t.contacts.remove(peer) =~= s.contacts.remove(peer));
    if s.contacts.contains_key(peer) {
        assert(action_models(r.actions@)[0] == ActionModel::SaveContact(peer));
    }
}

/// A frame with a ciphertext that a session of ours has yet to read, and can read
/// now, gives its plaintext, whatever else was sent; and the session has then
/// read it.
pub proof fn arriving_ciphertext_is_read(
    node: &mut Node,
    peer: PeerKey,
    ciphertext: Vec<u8>,
    from: RatchetSession,
    messages: Messages,
    i: int,
    r: FrameOutcome,
)
    requires
        call_ensures(Node::handle_frame, (node, peer, Wire::Message { ciphertext }), r),
        old(node).state@.sessions.contains_key(peer),
        old(node).state@.sessions[peer].expects(from, messages, i, ciphertext@),
    ensures
        r.plaintext is Some,
        r.plaintext->0@ == messages[i].1,
        final(node).state@.sessions[peer].awaits(from, messages.remove(i)),
        ({
            let s = old(node).state@;
            let t = final(node).state@;
            t == (StateModel {
                sessions: t.sessions,
                inbound_sessions: t.inbound_sessions,
                ..s
            })
        }),
{
}

/// An offer that is there is found, one that is not is waited for, and nothing is
/// given up before it was looked for long enough.
pub proof fn offers_are_waited_for(
    state: &State,
    transfer_id: &TransferId,
    looks: usize,
    r: OfferStep,
)
    requires
        call_ensures(State::wait_for_offer, (state, transfer_id, looks), r),
        looks < OFFER_POLLS,
    ensures
        r is Found <==> state@.pending_files.contains_key(*transfer_id),
        r is Found ==> r->Found_0 == state@.pending_files[*transfer_id],
        !(r is GiveUp),
{
}

/// A transfer starts as it was offered, with nothing received; where the file
/// cannot be created it has failed.
pub proof fn transfer_starts_as_offered(
    peer: PeerKey,
    transfer_id: TransferId,
    offer: PendingFile,
    created: Result<(), BlobError>,
    r: Result<BlobTransfer, EngineEvent>,
)
    requires
        call_ensures(BlobTransfer::start, (peer, transfer_id, offer, created), r),
    ensures
        r is Ok <==> created is Ok,
        r is Ok ==> {
            let t = r->Ok_0@;
            &&& t.peer == peer
            &&& t.transfer_id == transfer_id
            &&& t.name == offer.name@
            &&& t.expected == offer.sha256
            &&& t.sink.key == offer.key@
            &&& t.sink.received.len() == 0
        },
        r is Err ==> {
            &&& r->Err_0@ is FileFailed
            &&& r->Err_0@->FileFailed_peer == peer
            &&& r->Err_0@->FileFailed_transfer_id == transfer_id
            &&& r->Err_0@->FileFailed_name == offer.name@
        },
{
}

/// A text of somebody else that arrives, is new and is later than our own
/// watermark is one more unread message in the conversation with its sender,
/// wherever the watermark is.
pub proof fn arriving_message_is_unread(
    before: &Node,
    node: &mut Node,
    after: &Node,
    peer: PeerKey,
    m: Message,
    now: u64,
    was: usize,
    is: usize,
    r: Vec<Action>,
)
    requires
        kept(before.state@.conversations, peer).wf(),
        !kept(before.state@.conversations, peer).messages.contains_key(m.id),
        m.author != before.id,
        m.lamport > kept(before.state@.conversations, peer).watermark(before.id),
        call_ensures(Node::unread_direct, (before, &peer), was),
        old(node).state@ == before.state@,
        old(node).id == before.id,
        call_ensures(Node::handle_payload, (node, peer, Payload::Chat(m), now), r),
        after.state@ == final(node).state@,
        after.id == final(node).id,
        call_ensures(Node::unread_direct, (after, &peer), is),
    ensures
        is == was + 1,
{
    let c = kept(before.state@.conversations, peer);
    assert(c =~= before.state@.convo(peer));
    new_message_is_unread(c, before.id, m);
    assert(before.state@.flushed(peer).convo(peer) == c);
    assert(after.state@.convo(peer) == c.applied(m));
}

/// A ciphertext that nothing can read is refused for its reason: there is no
/// bundle to accept a session with, it is no ciphertext, or it opens no session
/// where only an opening could be read.
pub proof fn refusals_have_their_reason(
    node: &mut Node,
    peer: PeerKey,
    ciphertext: &[u8],
    r: Result<Decrypted, SessionError>,
)
    requires
        call_ensures(Node::decrypt_payload, (node, peer, ciphertext), r),
        r is Err,
    ensures
        ({
            let s = old(node).state@;
            let e = r->Err_0;
            let opening = ciphertext@.len() > 0 && ciphertext@[0] == PREKEY_TYPE;
            let tried = s.sessions.contains_key(peer) && !opening;
            &&& e == SessionError::NoBundle <==> !tried && !s.bundles.contains_key(peer)
            &&& e == SessionError::Ratchet(RatchetError::Malformed) <==> !is_ciphertext(
                ciphertext@,
            ) && (tried || s.bundles.contains_key(peer))
            &&& e == SessionError::Ratchet(RatchetError::NotPreKey) <==> is_ciphertext(ciphertext@)
                && !tried && !opening && s.bundles.contains_key(peer)
        }),
{
}

/// A ciphertext that nothing can read does no harm: every session that was there
/// is there, and has yet to read what it had yet to read.
pub proof fn refused_ciphertext_does_no_harm(
    node: &mut Node,
    peer: PeerKey,
    ciphertext: &[u8],
    from: RatchetSession,
    messages: Messages,
    r: Result<Decrypted, SessionError>,
)
    requires
        call_ensures(Node::decrypt_payload, (node, peer, ciphertext), r),
        r is Err,
    ensures
        ({
            let s = old(node).state@;
            let t = final(node).state@;
            &&& t.sessions.dom() == s.sessions.dom()
            &&& t.inbound_sessions.dom() == s.inbound_sessions.dom()
            &&& s.sessions.contains_key(peer) && s.sessions[peer].awaits(from, messages)
                ==> t.sessions[peer].awaits(from, messages)
            &&& s.sessions.contains_key(peer) && from.awaits(s.sessions[peer], messages)
                ==> from.awaits(t.sessions[peer], messages)
            &&& s.inbound_sessions.contains_key(peer) && s.inbound_sessions[peer].awaits(
                from,
                messages,
            ) ==> t.inbound_sessions[peer].awaits(from, messages)
            &&& s.inbound_sessions.contains_key(peer) && from.awaits(
                s.inbound_sessions[peer],
                messages,
            ) ==> from.awaits(t.inbound_sessions[peer], messages)
            &&& t.sessions.remove(peer) == s.sessions.remove(peer)
            &&& t.inbound_sessions.remove(peer) == s.inbound_sessions.remove(peer)
            &&& final(node).messaging@ == old(node).messaging@
        }),
{
}

/// A session that the peer opens does not take the place of ours where ours wins:
/// what ours had yet to read it can still read, and so can the peer what we send.
pub proof fn winning_session_is_kept(
    node: &mut Node,
    peer: PeerKey,
    ciphertext: &[u8],
    from: RatchetSession,
    messages: Messages,
    r: Result<Decrypted, SessionError>,
)
    requires
        call_ensures(Node::decrypt_payload, (node, peer, ciphertext), r),
        r is Ok,
        r->Ok_0.accepted,
        old(node).state@.sessions.contains_key(peer),
        !lex_lt(peer@, old(node).id@),
    ensures
        ({
            let s = old(node).state@;
            let t = final(node).state@;
            &&& t.sessions.contains_key(peer)
            &&& t.inbound_sessions.contains_key(peer)
            &&& s.sessions[peer].awaits(from, messages) ==> t.sessions[peer].awaits(from, messages)
            &&& from.awaits(s.sessions[peer], messages) ==> from.awaits(t.sessions[peer], messages)
        }),
{
    let before = old(node).state@;
    let me = old(node).id;
    let account = old(node).messaging;
    let (s, session) = choose|s: StateModel, session: RatchetSession|
        {
            &&& s.same_but_sessions(before, peer)
            &&& s.same_session_peers(before)
            &&& s.keeps_sessions(before, peer)
            &&& final(node).state@ == #[trigger] s.with_accepted(me, peer, session)
            &&& is_accepted(
                session,
                account,
                before.bundles[peer].identity_key@,
                ciphertext@,
            )
        };
    assert(s.sessions.dom().contains(peer));
}

} // verus!
