//! What nodes say to each other, and what a node tells its owner and the
//! program around it.

use crate::identity::SignedProfile;
#[allow(unused_imports)]
use crate::identity::SignedProfileModel;
use crate::ratchet::PreKeyBundle;
#[allow(unused_imports)]
use crate::sync::{reaction_models, ReactionModel};
use crate::sync::{AuthorId, Message, MessageId, Reaction};
use vstd::prelude::*;

verus! {

/// The stable id of a peer: its public identity key.
pub type PeerKey = [u8; 32];

/// The stable id of a group.
pub type GroupId = [u8; 16];

/// The id of a file transfer.
pub type TransferId = [u8; 16];

/// What travels on a connection. `Hello` and `Message` are the durable
/// protocol; the rest is never stored.
#[derive(Debug)]
pub enum Wire {
    /// Sent once per connection: the sender's pre-key bundle.
    Hello { bundle: PreKeyBundle },
    /// An encrypted [`Payload`].
    Message { ciphertext: Vec<u8> },
    /// The sender is typing.
    Typing,
    /// The sender's presence.
    Presence { online: bool },
    /// The sender has read up to this Lamport time.
    Read { up_to: u64 },
}

/// A group conversation.
#[derive(Debug, PartialEq, Eq)]
pub struct GroupInfo {
    pub id: GroupId,
    pub name: String,
    /// All members with the creator, in order and each once.
    pub members: Vec<PeerKey>,
    pub creator: PeerKey,
}

/// A group as a mathematical value.
pub ghost struct GroupModel {
    pub id: GroupId,
    pub name: Seq<char>,
    pub members: Seq<PeerKey>,
    pub creator: PeerKey,
}

impl View for GroupInfo {
    type V = GroupModel;

    open spec fn view(&self) -> GroupModel {
        GroupModel {
            id: self.id,
            name: self.name@,
            members: self.members@,
            creator: self.creator,
        }
    }
}

/// A copy of a list of keys.
pub fn copy_keys<const N: usize>(keys: &Vec<[u8; N]>) -> (r: Vec<[u8; N]>)
    ensures
        r@ == keys@,
{
    let mut r: Vec<[u8; N]> = Vec::new();
    let mut i: usize = 0;
    while i < keys.len()
        invariant
            i <= keys.len(),
            r@ == keys@.take(i as int),
        decreases keys.len() - i,
    {
        r.push(keys[i]);
        i = i + 1;
        assert(r@ =~= keys@.take(i as int));
    }
    assert(r@ =~= keys@);
    r
}

impl Clone for GroupInfo {
    fn clone(&self) -> (r: Self)
        ensures
            r@ == self@,
    {
        GroupInfo {
            id: self.id,
            name: self.name.clone(),
            members: copy_keys(&self.members),
            creator: self.creator,
        }
    }
}

/// The conversation that a sync payload is about.
#[derive(Debug, Clone, Copy, PartialEq, Eq)]
pub enum SyncScope {
    /// The conversation of the two connected peers.
    Direct,
    Group(GroupId),
}

/// How far a message of our own has got, as far as can be known.
#[derive(Debug, Clone, Copy, PartialEq, Eq, Structural)]
pub enum DeliveryStatus {
    /// Recorded here; the peer could not be reached.
    Queued,
    /// Written to a live connection.
    Sent,
    /// The peer has confirmed that it holds the message.
    Delivered,
}

/// What is inside an encrypted [`Wire::Message`].
#[derive(Debug)]
pub enum Payload {
    /// A message of the two peers.
    Chat(Message),
    /// A file message with the key of the blob stream to come.
    FileOffer { message: Message, key: [u8; 32] },
    /// An invitation to a group.
    GroupInvite(GroupInfo),
    /// A message to a group.
    GroupMessage { group: GroupId, message: Message },
    /// The sender's signed profile, if there is one. It is sent in any case,
    /// because it is what opens the session.
    Profile(Option<SignedProfile>),
    /// A group that both peers share, for members who were away when it was
    /// made.
    GroupAnnounce(GroupInfo),
    /// The ids of the messages that the sender holds.
    SyncHave { scope: SyncScope, ids: Vec<MessageId> },
    /// What the receiver was missing.
    SyncDelta {
        scope: SyncScope,
        messages: Vec<Message>,
        reactions: Vec<Reaction>,
        read: Vec<(AuthorId, u64)>,
    },
}

/// A payload as a mathematical value.
pub ghost enum PayloadModel {
    Chat(Message),
    FileOffer { message: Message, key: [u8; 32] },
    GroupInvite(GroupModel),
    GroupMessage { group: GroupId, message: Message },
    Profile(Option<SignedProfileModel>),
    GroupAnnounce(GroupModel),
    SyncHave { scope: SyncScope, ids: Seq<MessageId> },
    SyncDelta {
        scope: SyncScope,
        messages: Seq<Message>,
        reactions: Seq<ReactionModel>,
        read: Seq<(AuthorId, u64)>,
    },
}

/// The model of a signed profile, if there is one.
pub open spec fn signed_model(signed: Option<SignedProfile>) -> Option<SignedProfileModel> {
    match signed {
        Some(p) => Some(p@),
        None => None,
    }
}

impl View for Payload {
    type V = PayloadModel;

    open spec fn view(&self) -> PayloadModel {
        match *self {
            Payload::Chat(message) => PayloadModel::Chat(message),
            Payload::FileOffer { message, key } => PayloadModel::FileOffer { message, key },
            Payload::GroupInvite(info) => PayloadModel::GroupInvite(info@),
            Payload::GroupMessage { group, message } => PayloadModel::GroupMessage {
                group,
                message,
            },
            Payload::Profile(signed) => PayloadModel::Profile(signed_model(signed)),
            Payload::GroupAnnounce(info) => PayloadModel::GroupAnnounce(info@),
            Payload::SyncHave { scope, ids } => PayloadModel::SyncHave { scope, ids: ids@ },
            Payload::SyncDelta { scope, messages, reactions, read } => PayloadModel::SyncDelta {
                scope,
                messages: messages@,
                reactions: reaction_models(reactions@),
                read: read@,
            },
        }
    }
}

/// A file that was offered and whose blob stream is expected.
#[derive(Debug, PartialEq, Eq)]
pub struct PendingFile {
    pub key: [u8; 32],
    pub sha256: [u8; 32],
    pub name: String,
}

impl Clone for PendingFile {
    fn clone(&self) -> (r: Self)
        ensures
            r == *self,
    {
        PendingFile { key: self.key, sha256: self.sha256, name: self.name.clone() }
    }
}

/// What a node tells its owner.
#[derive(Debug, Clone)]
pub enum EngineEvent {
    /// A peer connected and completed the handshake.
    PeerConnected(PeerKey),
    /// The live connection of a peer closed.
    PeerDisconnected(PeerKey),
    /// A message arrived.
    MessageReceived { peer: PeerKey, message: Message },
    /// The peer is typing.
    Typing(PeerKey),
    /// The presence of the peer changed.
    PresenceChanged { peer: PeerKey, online: bool },
    /// The peer has read everything up to this Lamport time.
    ReadReceipt { peer: PeerKey, up_to: u64 },
    /// A peer appeared on the network.
    PeerDiscovered(PeerKey),
    /// A file was received and verified.
    FileReceived { peer: PeerKey, transfer_id: TransferId, name: String, path: String },
    /// A file was offered but did not arrive whole.
    FileFailed { peer: PeerKey, transfer_id: TransferId, name: String, reason: String },
    /// We were invited to a group, or learned of one.
    GroupInvited(GroupId),
    /// A message arrived in a group.
    GroupMessageReceived { group: GroupId, message: Message },
    /// Something in the vault could not be read or written.
    StorageWarning { detail: String },
    /// The stored data of a contact changed.
    ContactUpdated(PeerKey),
    /// The messaging key of the peer is not the pinned one.
    PinWarning { peer: PeerKey, old_fingerprint: String, new_fingerprint: String },
    /// A delta was merged and brought `added` messages.
    HistorySynced { peer: PeerKey, scope: SyncScope, added: usize },
    /// A message of our own has got further.
    MessageStatus { peer: PeerKey, id: MessageId, status: DeliveryStatus },
}

/// An event as a mathematical value.
pub ghost enum EventModel {
    PeerConnected(PeerKey),
    PeerDisconnected(PeerKey),
    MessageReceived { peer: PeerKey, message: Message },
    Typing(PeerKey),
    PresenceChanged { peer: PeerKey, online: bool },
    ReadReceipt { peer: PeerKey, up_to: u64 },
    PeerDiscovered(PeerKey),
    FileReceived { peer: PeerKey, transfer_id: TransferId, name: Seq<char>, path: Seq<char> },
    FileFailed { peer: PeerKey, transfer_id: TransferId, name: Seq<char>, reason: Seq<char> },
    GroupInvited(GroupId),
    GroupMessageReceived { group: GroupId, message: Message },
    StorageWarning { detail: Seq<char> },
    ContactUpdated(PeerKey),
    PinWarning { peer: PeerKey, old_fingerprint: Seq<char>, new_fingerprint: Seq<char> },
    HistorySynced { peer: PeerKey, scope: SyncScope, added: nat },
    MessageStatus { peer: PeerKey, id: MessageId, status: DeliveryStatus },
}

impl View for EngineEvent {
    type V = EventModel;

    open spec fn view(&self) -> EventModel {
        match *self {
            EngineEvent::PeerConnected(p) => EventModel::PeerConnected(p),
            EngineEvent::PeerDisconnected(p) => EventModel::PeerDisconnected(p),
            EngineEvent::MessageReceived { peer, message } => EventModel::MessageReceived {
                peer,
                message,
            },
            EngineEvent::Typing(p) => EventModel::Typing(p),
            EngineEvent::PresenceChanged { peer, online } => EventModel::PresenceChanged {
                peer,
                online,
            },
            EngineEvent::ReadReceipt { peer, up_to } => EventModel::ReadReceipt { peer, up_to },
            EngineEvent::PeerDiscovered(p) => EventModel::PeerDiscovered(p),
            EngineEvent::FileReceived { peer, transfer_id, name, path } => EventModel::FileReceived {
                peer,
                transfer_id,
                name: name@,
                path: path@,
            },
            EngineEvent::FileFailed { peer, transfer_id, name, reason } => EventModel::FileFailed {
                peer,
                transfer_id,
                name: name@,
                reason: reason@,
            },
            EngineEvent::GroupInvited(g) => EventModel::GroupInvited(g),
            EngineEvent::GroupMessageReceived { group, message } => EventModel::GroupMessageReceived {
                group,
                message,
            },
            EngineEvent::StorageWarning { detail } => EventModel::StorageWarning {
                detail: detail@,
            },
            EngineEvent::ContactUpdated(p) => EventModel::ContactUpdated(p),
            EngineEvent::PinWarning { peer, old_fingerprint, new_fingerprint } => EventModel::PinWarning {
                peer,
                old_fingerprint: old_fingerprint@,
                new_fingerprint: new_fingerprint@,
            },
            EngineEvent::HistorySynced { peer, scope, added } => EventModel::HistorySynced {
                peer,
                scope,
                added: added as nat,
            },
            EngineEvent::MessageStatus { peer, id, status } => EventModel::MessageStatus {
                peer,
                id,
                status,
            },
        }
    }
}

/// What a node asks the program around it to do, in the order given.
#[derive(Debug)]
pub enum Action {
    /// Hand an event to the owner.
    Emit(EngineEvent),
    /// Store the conversation with a peer.
    SaveConvo(PeerKey),
    /// Store the conversation of a group.
    SaveGroupConvo(GroupId),
    /// Store a group.
    SaveGroup(GroupId),
    /// Store a contact.
    SaveContact(PeerKey),
    /// Remove a contact and its conversation from the vault.
    DeleteContact(PeerKey),
    /// Store the messaging account.
    SaveAccount,
    /// Encrypt a payload for a peer and send it.
    Send { peer: PeerKey, payload: Payload },
    /// Send a frame to a peer.
    SendWire { peer: PeerKey, wire: Wire },
    /// Run the exchange that follows a connection.
    PostConnect(PeerKey),
}

/// A frame as a mathematical value.
pub ghost enum WireModel {
    Hello { bundle: PreKeyBundle },
    Message { ciphertext: Seq<u8> },
    Typing,
    Presence { online: bool },
    Read { up_to: u64 },
}

impl View for Wire {
    type V = WireModel;

    open spec fn view(&self) -> WireModel {
        match *self {
            Wire::Hello { bundle } => WireModel::Hello { bundle },
            Wire::Message { ciphertext } => WireModel::Message { ciphertext: ciphertext@ },
            Wire::Typing => WireModel::Typing,
            Wire::Presence { online } => WireModel::Presence { online },
            Wire::Read { up_to } => WireModel::Read { up_to },
        }
    }
}

/// An action as a mathematical value.
pub ghost enum ActionModel {
    Emit(EventModel),
    SaveConvo(PeerKey),
    SaveGroupConvo(GroupId),
    SaveGroup(GroupId),
    SaveContact(PeerKey),
    DeleteContact(PeerKey),
    SaveAccount,
    Send { peer: PeerKey, payload: PayloadModel },
    SendWire { peer: PeerKey, wire: WireModel },
    PostConnect(PeerKey),
}

impl View for Action {
    type V = ActionModel;

    open spec fn view(&self) -> ActionModel {
        match *self {
            Action::Emit(e) => ActionModel::Emit(e@),
            Action::SaveConvo(p) => ActionModel::SaveConvo(p),
            Action::SaveGroupConvo(g) => ActionModel::SaveGroupConvo(g),
            Action::SaveGroup(g) => ActionModel::SaveGroup(g),
            Action::SaveContact(p) => ActionModel::SaveContact(p),
            Action::DeleteContact(p) => ActionModel::DeleteContact(p),
            Action::SaveAccount => ActionModel::SaveAccount,
            Action::Send { peer, payload } => ActionModel::Send { peer, payload: payload@ },
            Action::SendWire { peer, wire } => ActionModel::SendWire { peer, wire: wire@ },
            Action::PostConnect(p) => ActionModel::PostConnect(p),
        }
    }
}

/// The models of a list of actions.
pub open spec fn action_models(s: Seq<Action>) -> Seq<ActionModel> {
    s.map_values(|a: Action| a@)
}

/// A push adds the model of the action.
pub broadcast proof fn action_models_push(s: Seq<Action>, a: Action)
    ensures
        #[trigger] action_models(s.push(a)) == action_models(s).push(a@),
{
    assert(action_models(s.push(a)) =~= action_models(s).push(a@));
}

/// The models of a list of payloads.
pub open spec fn payload_models(s: Seq<Payload>) -> Seq<PayloadModel> {
    s.map_values(|p: Payload| p@)
}

/// A push adds the model of the payload.
pub broadcast proof fn payload_models_push(s: Seq<Payload>, p: Payload)
    ensures
        #[trigger] payload_models(s.push(p)) == payload_models(s).push(p@),
{
    assert(payload_models(s.push(p)) =~= payload_models(s).push(p@));
}

} // verus!
