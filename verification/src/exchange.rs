//! What a node does with what its peers tell it.

#[allow(unused_imports)]
use crate::contact::ContactModel;
#[allow(unused_imports)]
use crate::convergence::applied_all_content;
use crate::bytes::same_key;
use crate::conversation::Conversation;
#[allow(unused_imports)]
use crate::conversation::ConversationModel;
use crate::hexid::hex_of;
#[allow(unused_imports)]
use crate::hexid::hex_text;
use crate::identity::SignedProfile;
#[allow(unused_imports)]
use crate::identity::SignedProfileModel;
use crate::keyed::ByteSet;
#[allow(unused_imports)]
use crate::keyed::in_order;
use crate::protocol::{
    Action, EngineEvent, GroupId, GroupInfo, Payload, PeerKey, PendingFile, SyncScope,
};
#[allow(unused_imports)]
use crate::protocol::{
    action_models, action_models_push, ActionModel, EventModel, GroupModel, PayloadModel,
};
use crate::state::{group_allows, take_convo, State};
#[allow(unused_imports)]
use crate::state::{views_insert, views_remove, StateModel};
use crate::sync::{AuthorId, Message, MessageId, MessageKind, Reaction};
#[allow(unused_imports)]
use crate::sync::{reaction_models, reactions_in_order, ReactionModel};
use vstd::prelude::*;

verus! {

broadcast use {action_models_push, views_insert, views_remove};

impl StateModel {
    /// The conversation that a scope is about.
    pub open spec fn scope_convo(self, peer: PeerKey, scope: SyncScope) -> ConversationModel {
        match scope {
            SyncScope::Direct => self.convo(peer),
            SyncScope::Group(gid) => self.group_convo(gid),
        }
    }

    /// The peer may read and write the conversation that a scope is about.
    pub open spec fn scope_open(self, me: PeerKey, peer: PeerKey, scope: SyncScope) -> bool {
        match scope {
            SyncScope::Direct => true,
            SyncScope::Group(gid) => self.group_allows(gid, peer, me),
        }
    }

    /// The same, with another conversation in a scope.
    pub open spec fn with_scope_convo(
        self,
        peer: PeerKey,
        scope: SyncScope,
        c: ConversationModel,
    ) -> Self {
        match scope {
            SyncScope::Direct => self.with_convo(peer, c),
            SyncScope::Group(gid) => self.with_group_convo(gid, c),
        }
    }

    /// What a peer that holds these ids is missing in a scope.
    pub open spec fn delta_for(self, peer: PeerKey, scope: SyncScope, ids: Set<MessageId>) -> PayloadModel {
        let c = self.scope_convo(peer, scope);
        PayloadModel::SyncDelta {
            scope,
            messages: c.delta(ids),
            reactions: reactions_in_order(c.reactions),
            read: c.marks(),
        }
    }

    /// The ids that we hold in a scope, as we tell them to a peer.
    pub open spec fn have_payload(self, peer: PeerKey, scope: SyncScope) -> PayloadModel {
        PayloadModel::SyncHave {
            scope,
            ids: in_order(self.scope_convo(peer, scope).messages.dom()),
        }
    }
}

/// A conversation after a delta.
pub open spec fn after_delta(
    c: ConversationModel,
    messages: Seq<Message>,
    reactions: Seq<ReactionModel>,
    read: Seq<(AuthorId, u64)>,
) -> ConversationModel {
    c.applied_all(messages).reacted_all(reactions).marked_all(read)
}

/// Storing the conversation of a scope.
pub open spec fn save_scope(peer: PeerKey, scope: SyncScope) -> ActionModel {
    match scope {
        SyncScope::Direct => ActionModel::SaveConvo(peer),
        SyncScope::Group(gid) => ActionModel::SaveGroupConvo(gid),
    }
}

/// What follows a delta: the conversation is stored and one event tells how
/// many messages were new. Where there were any in the conversation of the two
/// peers, the sender learns what we hold now.
pub open spec fn delta_actions(s: StateModel, peer: PeerKey, scope: SyncScope, added: nat) -> Seq<
    ActionModel,
> {
    let told = seq![
        save_scope(peer, scope),
        ActionModel::Emit(EventModel::HistorySynced { peer, scope, added }),
    ];
    if scope is Direct && added > 0 {
        told.push(ActionModel::Send { peer, payload: s.have_payload(peer, SyncScope::Direct) })
    } else {
        told
    }
}

/// The number of messages that a delta adds.
pub open spec fn added_by(c: ConversationModel, d: ConversationModel) -> nat {
    (d.messages.len() - c.messages.len()) as nat
}

/// Applying messages loses none, so the number of messages does not fall.
proof fn applied_all_grows(c: ConversationModel, ms: Seq<Message>)
    requires
        c.messages.dom().finite(),
        c.applied_all(ms).messages.dom().finite(),
    ensures
        c.messages.len() <= c.applied_all(ms).messages.len(),
{
    applied_all_content(c, ms);
    let d = c.applied_all(ms);
    assert forall|id: MessageId| c.messages.dom().contains(id) implies d.messages.dom().contains(
        id,
    ) by {
        assert(d.messages.contains_key(id));
    }
    vstd::set_lib::lemma_len_subset(c.messages.dom(), d.messages.dom());
}

/// Merges a delta into a conversation and counts what was new.
fn merge_delta(
    c: &mut Conversation,
    messages: &[Message],
    reactions: &[Reaction],
    read: &[(AuthorId, u64)],
) -> (added: usize)
    ensures
        final(c)@ == after_delta(old(c)@, messages@, reaction_models(reactions@), read@),
        added == added_by(old(c)@, final(c)@),
{
    let ghost before = c@;
    let n = c.len();
    proof {
        use_type_invariant(&*c);
        c.inv_wf();
    }
    c.apply_all(messages);
    let m = c.len();
    proof {
        use_type_invariant(&*c);
        c.inv_wf();
        applied_all_grows(before, messages@);
    }
    c.react_all(reactions);
    let ghost mid = c@;
    c.mark_all(read);
    proof {
        crate::convergence::marked_all_content(mid, read@);
    }
    m - n
}

impl State {
    /// Answers a peer that holds these ids with everything it is missing in a
    /// scope. There is no answer only where the peer may not read the scope.
    pub fn build_delta(
        &self,
        me: &PeerKey,
        peer: &PeerKey,
        scope: SyncScope,
        their_ids: &[MessageId],
    ) -> (r: Option<Payload>)
        ensures
            match r {
                Some(p) => self@.scope_open(*me, *peer, scope) && p@ == self@.delta_for(
                    *peer,
                    scope,
                    their_ids@.to_set(),
                ),
                None => !self@.scope_open(*me, *peer, scope),
            },
    {
        let have = ByteSet::from_slice(their_ids);
        let found = match scope {
            SyncScope::Direct => self.conversations.get(peer),
            SyncScope::Group(gid) => {
                if !group_allows(self, &gid, peer, me) {
                    return None;
                }
                self.group_convos.get(&gid)
            },
        };
        match found {
            Some(c) => Some(Self::delta_payload(c, scope, &have)),
            None => Some(Self::delta_payload(&Conversation::new(), scope, &have)),
        }
    }

    /// The delta of one conversation.
    fn delta_payload(c: &Conversation, scope: SyncScope, have: &ByteSet<16>) -> (r: Payload)
        ensures
            r@ == (PayloadModel::SyncDelta {
                scope,
                messages: c@.delta(have@),
                reactions: reactions_in_order(c@.reactions),
                read: c@.marks(),
            }),
    {
        let snap = c.snapshot();
        Payload::SyncDelta {
            scope,
            messages: c.delta_since(have),
            reactions: snap.reactions,
            read: snap.read,
        }
    }

    /// The ids that we hold in a scope, as we tell them to a peer.
    pub fn have_payload(&self, peer: &PeerKey, scope: SyncScope) -> (r: Payload)
        ensures
            r@ == self@.have_payload(*peer, scope),
    {
        let found = match scope {
            SyncScope::Direct => self.conversations.get(peer),
            SyncScope::Group(gid) => self.group_convos.get(&gid),
        };
        let ids = match found {
            Some(c) => c.have().to_vec(),
            None => ByteSet::<16>::new().to_vec(),
        };
        proof {
            assert(Map::<MessageId, Message>::empty().dom() =~= Set::<MessageId>::empty());
        }
        Payload::SyncHave { scope, ids }
    }

    /// Merges a delta. A group delta from a peer that may not write to the
    /// group does nothing.
    pub fn apply_delta(
        &mut self,
        me: &PeerKey,
        peer: PeerKey,
        scope: SyncScope,
        messages: &[Message],
        reactions: &[Reaction],
        read: &[(AuthorId, u64)],
    ) -> (r: Vec<Action>)
        ensures
            ({
                let s = old(self)@;
                let c = s.scope_convo(peer, scope);
                let d = after_delta(c, messages@, reaction_models(reactions@), read@);
                if s.scope_open(*me, peer, scope) {
                    &&& final(self)@ == s.with_scope_convo(peer, scope, d)
                    &&& action_models(r@) == delta_actions(
                        s.with_scope_convo(peer, scope, d),
                        peer,
                        scope,
                        added_by(c, d),
                    )
                } else {
                    &&& final(self)@ == s
                    &&& r@.len() == 0
                }
            }),
    {
        let ghost before = self@;
        let mut r: Vec<Action> = Vec::new();
        let added = match scope {
            SyncScope::Direct => {
                let mut c = take_convo(&mut self.conversations, &peer);
                let added = merge_delta(&mut c, messages, reactions, read);
                self.conversations.insert(peer, c);
                r.push(Action::SaveConvo(peer));
                added
            },
            SyncScope::Group(gid) => {
                if !group_allows(self, &gid, &peer, me) {
                    return r;
                }
                let mut c = take_convo(&mut self.group_convos, &gid);
                let added = merge_delta(&mut c, messages, reactions, read);
                self.group_convos.insert(gid, c);
                r.push(Action::SaveGroupConvo(gid));
                added
            },
        };
        let ghost d = after_delta(
            before.scope_convo(peer, scope),
            messages@,
            reaction_models(reactions@),
            read@,
        );
        proof {
            let after = before.with_scope_convo(peer, scope, d);
            assert(self@.conversations =~= after.conversations);
            assert(self@.group_convos =~= after.group_convos);
            assert(self@ =~= after);
        }
        r.push(Action::Emit(EngineEvent::HistorySynced { peer, scope, added }));
        if let SyncScope::Direct = scope {
            if added > 0 {
                r.push(Action::Send { peer, payload: self.have_payload(&peer, SyncScope::Direct) });
            }
        }
        proof {
            assert(action_models(r@) =~= delta_actions(
                before.with_scope_convo(peer, scope, d),
                peer,
                scope,
                added as nat,
            ));
        }
        r
    }
}

/// What follows a message of a peer: the conversation and the contact are
/// stored and the owner is told.
pub open spec fn message_actions(peer: PeerKey, message: Message) -> Seq<ActionModel> {
    seq![
        ActionModel::SaveConvo(peer),
        ActionModel::SaveContact(peer),
        ActionModel::Emit(EventModel::MessageReceived { peer, message }),
    ]
}

impl StateModel {
    /// After a message of a peer.
    pub open spec fn after_message(self, peer: PeerKey, message: Message, now: u64) -> Self {
        self.with_convo(peer, self.convo(peer).applied(message)).seen(peer, now)
    }

    /// After the offer of a file.
    pub open spec fn after_offer(self, message: Message, key: [u8; 32]) -> Self {
        match message.kind {
            MessageKind::File(f) => StateModel {
                pending_files: self.pending_files.insert(
                    f.transfer_id,
                    PendingFile { key, sha256: f.sha256, name: f.name },
                ),
                ..self
            },
            MessageKind::Text => self,
        }
    }

    /// After news of a group: what is known of it stays, and it has a
    /// conversation.
    pub open spec fn after_group(self, info: GroupModel) -> Self {
        StateModel {
            groups: if self.groups.contains_key(info.id) {
                self.groups
            } else {
                self.groups.insert(info.id, info)
            },
            group_convos: self.group_convos.insert(info.id, self.group_convo(info.id)),
            ..self
        }
    }

    /// A profile of the peer that is signed by it, and newer than the one we
    /// have.
    pub open spec fn is_newer_profile(self, peer: PeerKey, signed: SignedProfileModel) -> bool {
        &&& signed.valid()
        &&& signed.id == peer
        &&& self.contacts.contains_key(peer)
        &&& match self.contacts[peer].profile {
            Some(p) => signed.profile.updated_at > p.updated_at,
            None => true,
        }
    }

    /// After the first messaging key of a contact is pinned, or a later one is
    /// held against it.
    pub open spec fn after_key(self, peer: PeerKey, key: [u8; 32]) -> Self {
        if !self.contacts.contains_key(peer) {
            self
        } else {
            let c = self.contacts[peer];
            self.with_contact(
                peer,
                match c.pinned_msg_key {
                    None => ContactModel { pinned_msg_key: Some(key), ..c },
                    Some(pinned) => ContactModel {
                        pending_msg_key: if pinned == key {
                            None
                        } else {
                            Some(key)
                        },
                        ..c
                    },
                },
            )
        }
    }

    /// What follows a messaging key: the contact is stored, and the owner is
    /// warned where the key is not the pinned one.
    pub open spec fn key_actions(self, peer: PeerKey, key: [u8; 32]) -> Seq<ActionModel> {
        if !self.contacts.contains_key(peer) {
            Seq::empty()
        } else {
            match self.contacts[peer].pinned_msg_key {
                Some(pinned) if pinned != key => seq![
                    ActionModel::SaveContact(peer),
                    ActionModel::Emit(
                        EventModel::PinWarning {
                            peer,
                            old_fingerprint: hex_text(pinned@.subrange(0, 8)),
                            new_fingerprint: hex_text(key@.subrange(0, 8)),
                        },
                    ),
                ],
                _ => seq![ActionModel::SaveContact(peer)],
            }
        }
    }
}

/// Storing a group and telling the owner of it.
pub open spec fn group_news(gid: GroupId) -> Seq<ActionModel> {
    seq![
        ActionModel::SaveGroup(gid),
        ActionModel::SaveGroupConvo(gid),
        ActionModel::Emit(EventModel::GroupInvited(gid)),
    ]
}

impl State {
    /// Takes in a message of a peer.
    pub fn apply_direct_message(&mut self, peer: PeerKey, message: Message, now: u64) -> (r: Vec<
        Action,
    >)
        ensures
            final(self)@ == old(self)@.after_message(peer, message, now),
            action_models(r@) == message_actions(peer, message),
    {
        let ghost before = self@;
        let mut c = take_convo(&mut self.conversations, &peer);
        c.apply(message.clone());
        self.conversations.insert(peer, c);
        let ghost mid = before.with_convo(peer, before.convo(peer).applied(message));
        proof {
            assert(self@.conversations =~= mid.conversations);
            assert(self@ =~= mid);
        }
        self.note_seen(peer, now);
        let mut r: Vec<Action> = Vec::new();
        r.push(Action::SaveConvo(peer));
        r.push(Action::SaveContact(peer));
        r.push(Action::Emit(EngineEvent::MessageReceived { peer, message }));
        assert(action_models(r@) =~= message_actions(peer, message));
        r
    }

    /// Notes that a contact was seen just now.
    pub fn note_seen(&mut self, peer: PeerKey, now: u64)
        ensures
            final(self)@ == old(self)@.seen(peer, now),
    {
        let ghost before = self@;
        if let Some(c) = self.contacts.remove(&peer) {
            let mut c = c;
            c.last_seen = now;
            self.contacts.insert(peer, c);
        }
        proof {
            assert(self@.contacts =~= before.seen(peer, now).contacts);
            assert(self@ =~= before.seen(peer, now));
        }
    }

    /// Takes in the offer of a file, so that its blob stream is expected.
    pub fn expect_file(&mut self, message: &Message, key: [u8; 32])
        ensures
            final(self)@ == old(self)@.after_offer(*message, key),
    {
        let ghost before = self@;
        if let MessageKind::File(f) = &message.kind {
            self.pending_files.insert(
                f.transfer_id,
                PendingFile { key, sha256: f.sha256, name: f.name.clone() },
            );
        }
        proof {
            assert(self@ =~= before.after_offer(*message, key));
        }
    }

    /// Takes in news of a group, and tells whether the group was unknown.
    pub fn learn_group(&mut self, info: GroupInfo) -> (fresh: bool)
        ensures
            final(self)@ == old(self)@.after_group(info@),
            fresh == !old(self)@.groups.contains_key(info.id),
    {
        let ghost before = self@;
        let ghost model = info@;
        let id = info.id;
        let fresh = !self.groups.contains(&id);
        if fresh {
            self.groups.insert(id, info);
        }
        let c = take_convo(&mut self.group_convos, &id);
        self.group_convos.insert(id, c);
        proof {
            let after = before.after_group(model);
            assert(self@.groups =~= after.groups);
            assert(self@.group_convos =~= after.group_convos);
            assert(self@ =~= after);
        }
        fresh
    }

    /// Takes in the messaging key of a peer: the first one is pinned, and any
    /// other is held against it.
    pub fn check_pin(&mut self, peer: PeerKey, key: [u8; 32]) -> (r: Vec<Action>)
        ensures
            final(self)@ == old(self)@.after_key(peer, key),
            action_models(r@) == old(self)@.key_actions(peer, key),
    {
        let ghost before = self@;
        let mut r: Vec<Action> = Vec::new();
        let mut c = match self.contacts.remove(&peer) {
            Some(c) => c,
            None => {
                proof {
                    assert(self@.contacts =~= before.contacts);
                    assert(self@ =~= before);
                    assert(action_models(r@) =~= Seq::<ActionModel>::empty());
                }
                return r;
            },
        };
        r.push(Action::SaveContact(peer));
        match c.pinned_msg_key {
            None => {
                c.pinned_msg_key = Some(key);
            },
            Some(pinned) => {
                if same_key(&pinned, &key) {
                    c.pending_msg_key = None;
                } else {
                    c.pending_msg_key = Some(key);
                    let old_fingerprint = hex_of(pinned.as_slice().split_at(8).0);
                    let new_fingerprint = hex_of(key.as_slice().split_at(8).0);
                    r.push(
                        Action::Emit(
                            EngineEvent::PinWarning { peer, old_fingerprint, new_fingerprint },
                        ),
                    );
                }
            },
        }
        self.contacts.insert(peer, c);
        proof {
            let after = before.after_key(peer, key);
            assert(self@.contacts =~= after.contacts);
            assert(self@ =~= after);
            assert(action_models(r@) =~= before.key_actions(peer, key));
        }
        r
    }

    /// Takes in a signed profile. It counts only if the peer itself signed it
    /// and it is newer than the one we have.
    pub fn take_profile(&mut self, peer: PeerKey, signed: &SignedProfile) -> (r: Vec<Action>)
        ensures
            ({
                let s = old(self)@;
                if s.is_newer_profile(peer, signed@) {
                    &&& final(self)@ == s.with_contact(
                        peer,
                        ContactModel { profile: Some(signed@.profile), ..s.contacts[peer] },
                    )
                    &&& action_models(r@) == seq![
                        ActionModel::SaveContact(peer),
                        ActionModel::Emit(EventModel::ContactUpdated(peer)),
                    ]
                } else {
                    &&& final(self)@ == s
                    &&& r@.len() == 0
                }
            }),
    {
        let ghost before = self@;
        let mut r: Vec<Action> = Vec::new();
        let profile = match signed.verify() {
            Ok((id, profile)) => {
                let signer = id.to_bytes();
                assert(signer =~= signed.id);
                if !same_key(&signer, &peer) {
                    return r;
                }
                profile
            },
            Err(_) => return r,
        };
        let mut c = match self.contacts.remove(&peer) {
            Some(c) => c,
            None => {
                proof {
                    assert(self@.contacts =~= before.contacts);
                    assert(self@ =~= before);
                }
                return r;
            },
        };
        let newer = match &c.profile {
            Some(p) => profile.updated_at > p.updated_at,
            None => true,
        };
        if newer {
            c.profile = Some(profile.clone());
            r.push(Action::SaveContact(peer));
            r.push(Action::Emit(EngineEvent::ContactUpdated(peer)));
        }
        self.contacts.insert(peer, c);
        proof {
            let c0 = before.contacts[peer];
            let after = if newer {
                before.with_contact(peer, ContactModel { profile: Some(signed@.profile), ..c0 })
            } else {
                before
            };
            assert(self@.contacts =~= after.contacts);
            assert(self@ =~= after);
            if newer {
                assert(action_models(r@) =~= seq![
                    ActionModel::SaveContact(peer),
                    ActionModel::Emit(EventModel::ContactUpdated(peer)),
                ]);
            }
        }
        r
    }
}

} // verus!
