//! Dispatch of payloads and frames.

#[allow(unused_imports)]
use crate::contact::ContactModel;
#[allow(unused_imports)]
use crate::delivery::delivered_news;
#[allow(unused_imports)]
use crate::exchange::{added_by, after_delta, delta_actions, group_news, message_actions};
use crate::protocol::{
    Action, EngineEvent, GroupId, GroupInfo, Payload, PeerKey, SyncScope,
};
#[allow(unused_imports)]
use crate::protocol::{
    action_models, action_models_push, ActionModel, EventModel, GroupModel, PayloadModel,
};
use crate::ratchet::PreKeyBundle;
use crate::state::{group_allows, group_info_admits, take_convo, State};
#[allow(unused_imports)]
use crate::state::{views_insert, views_remove, StateModel};
use crate::sync::Message;
#[allow(unused_imports)]
use crate::sync::MessageId;
use vstd::prelude::*;

verus! {

broadcast use {action_models_push, views_insert, views_remove};

/// The peer who tells us of a group and we are both among its members.
pub open spec fn admits(info: GroupModel, peer: PeerKey, me: PeerKey) -> bool {
    info.members.contains(peer) && info.members.contains(me)
}

/// Two lists of actions one after the other.
pub fn join(first: Vec<Action>, second: Vec<Action>) -> (r: Vec<Action>)
    ensures
        action_models(r@) == action_models(first@) + action_models(second@),
{
    let mut r = first;
    let mut rest = second;
    let ghost a = r@;
    let ghost b = rest@;
    r.append(&mut rest);
    assert(action_models(r@) =~= action_models(a) + action_models(b));
    r
}

impl StateModel {
    /// The exchange after the connection waits for a session that is there now.
    pub open spec fn must_flush(self, peer: PeerKey) -> bool {
        self.sessions.contains_key(peer) && self.pending_post_connect.contains(peer)
    }

    /// After the deferred exchange was let go, where it was waiting.
    pub open spec fn flushed(self, peer: PeerKey) -> Self {
        if self.must_flush(peer) {
            StateModel { pending_post_connect: self.pending_post_connect.remove(peer), ..self }
        } else {
            self
        }
    }

    /// What letting go of the deferred exchange does.
    pub open spec fn flush_actions(self, peer: PeerKey) -> Seq<ActionModel> {
        if self.must_flush(peer) {
            seq![ActionModel::PostConnect(peer)]
        } else {
            Seq::empty()
        }
    }

    /// After a payload of a peer.
    pub open spec fn after_payload(
        self,
        me: PeerKey,
        peer: PeerKey,
        payload: PayloadModel,
        now: u64,
    ) -> Self {
        match payload {
            PayloadModel::Chat(message) => self.after_message(peer, message, now),
            PayloadModel::FileOffer { message, key } => self.after_offer(
                message,
                key,
            ).after_message(peer, message, now),
            PayloadModel::GroupInvite(info) => if admits(info, peer, me) {
                self.after_group(info)
            } else {
                self
            },
            PayloadModel::GroupMessage { group, message } => if self.group_allows(group, peer, me) {
                self.with_group_convo(group, self.group_convo(group).applied(message))
            } else {
                self
            },
            PayloadModel::Profile(None) => self,
            PayloadModel::Profile(Some(signed)) => if self.is_newer_profile(peer, signed) {
                self.with_contact(
                    peer,
                    ContactModel { profile: Some(signed.profile), ..self.contacts[peer] },
                )
            } else {
                self
            },
            PayloadModel::GroupAnnounce(info) => if admits(info, peer, me) {
                self.after_group(info)
            } else {
                self
            },
            PayloadModel::SyncHave { scope, ids } => if scope is Direct {
                self.confirmed(peer, ids.to_set())
            } else {
                self
            },
            PayloadModel::SyncDelta { scope, messages, reactions, read } => if self.scope_open(
                me,
                peer,
                scope,
            ) {
                self.with_scope_convo(
                    peer,
                    scope,
                    after_delta(self.scope_convo(peer, scope), messages, reactions, read),
                )
            } else {
                self
            },
        }
    }

    /// Asking for the history of a group that is new to us.
    pub open spec fn backfill(self, peer: PeerKey, info: GroupModel) -> Seq<ActionModel> {
        if self.groups.contains_key(info.id) {
            Seq::empty()
        } else {
            seq![
                ActionModel::Send {
                    peer,
                    payload: self.after_group(info).have_payload(peer, SyncScope::Group(info.id)),
                },
            ]
        }
    }

    /// What a payload of a peer makes the node do.
    pub open spec fn payload_actions(self, me: PeerKey, peer: PeerKey, payload: PayloadModel) -> Seq<
        ActionModel,
    > {
        match payload {
            PayloadModel::Chat(message) => message_actions(peer, message),
            PayloadModel::FileOffer { message, key } => message_actions(peer, message),
            PayloadModel::GroupInvite(info) => if admits(info, peer, me) {
                group_news(info.id) + self.backfill(peer, info)
            } else {
                Seq::empty()
            },
            PayloadModel::GroupMessage { group, message } => if self.group_allows(group, peer, me) {
                seq![
                    ActionModel::SaveGroupConvo(group),
                    ActionModel::Emit(EventModel::GroupMessageReceived { group, message }),
                ]
            } else {
                Seq::empty()
            },
            PayloadModel::Profile(None) => Seq::empty(),
            PayloadModel::Profile(Some(signed)) => if self.is_newer_profile(peer, signed) {
                seq![
                    ActionModel::SaveContact(peer),
                    ActionModel::Emit(EventModel::ContactUpdated(peer)),
                ]
            } else {
                Seq::empty()
            },
            PayloadModel::GroupAnnounce(info) => if admits(info, peer, me)
                && !self.groups.contains_key(info.id) {
                group_news(info.id) + self.backfill(peer, info)
            } else {
                Seq::empty()
            },
            PayloadModel::SyncHave { scope, ids } => (if scope is Direct {
                delivered_news(peer, ids.filter(self.unconfirmed(me, peer)))
            } else {
                Seq::empty()
            }) + (if self.scope_open(me, peer, scope) {
                seq![
                    ActionModel::Send { peer, payload: self.delta_for(peer, scope, ids.to_set()) },
                ]
            } else {
                Seq::empty()
            }),
            PayloadModel::SyncDelta { scope, messages, reactions, read } => if self.scope_open(
                me,
                peer,
                scope,
            ) {
                let c = self.scope_convo(peer, scope);
                let d = after_delta(c, messages, reactions, read);
                delta_actions(
                    self.with_scope_convo(peer, scope, d),
                    peer,
                    scope,
                    added_by(c, d),
                )
            } else {
                Seq::empty()
            },
        }
    }
}

impl State {
    /// Lets go of the exchange after the connection, where it was waiting for
    /// the session that is there now.
    pub fn flush_post_connect(&mut self, peer: PeerKey) -> (r: Vec<Action>)
        ensures
            final(self)@ == old(self)@.flushed(peer),
            action_models(r@) == old(self)@.flush_actions(peer),
    {
        let ghost before = self@;
        let mut r: Vec<Action> = Vec::new();
        if self.sessions.contains(&peer) && self.pending_post_connect.remove(&peer) {
            r.push(Action::PostConnect(peer));
        }
        proof {
            assert(self@.pending_post_connect =~= before.flushed(peer).pending_post_connect);
            assert(self@ =~= before.flushed(peer));
            assert(action_models(r@) =~= before.flush_actions(peer));
        }
        r
    }

    /// Takes in an invitation to a group.
    fn take_invite(&mut self, me: &PeerKey, peer: PeerKey, info: GroupInfo) -> (r: Vec<Action>)
        ensures
            final(self)@ == old(self)@.after_payload(
                *me,
                peer,
                PayloadModel::GroupInvite(info@),
                0,
            ),
            action_models(r@) == old(self)@.payload_actions(
                *me,
                peer,
                PayloadModel::GroupInvite(info@),
            ),
    {
        let ghost before = self@;
        let ghost model = info@;
        let mut r: Vec<Action> = Vec::new();
        if !group_info_admits(&info, &peer, me) {
            assert(action_models(r@) =~= Seq::<ActionModel>::empty());
            return r;
        }
        let id = info.id;
        let fresh = self.learn_group(info);
        r.push(Action::SaveGroup(id));
        r.push(Action::SaveGroupConvo(id));
        r.push(Action::Emit(EngineEvent::GroupInvited(id)));
        if fresh {
            r.push(Action::Send { peer, payload: self.have_payload(&peer, SyncScope::Group(id)) });
        }
        assert(action_models(r@) =~= group_news(id) + before.backfill(peer, model));
        r
    }

    /// Takes in the announcement of a shared group.
    fn take_announce(&mut self, me: &PeerKey, peer: PeerKey, info: GroupInfo) -> (r: Vec<Action>)
        ensures
            final(self)@ == old(self)@.after_payload(
                *me,
                peer,
                PayloadModel::GroupAnnounce(info@),
                0,
            ),
            action_models(r@) == old(self)@.payload_actions(
                *me,
                peer,
                PayloadModel::GroupAnnounce(info@),
            ),
    {
        let ghost before = self@;
        let ghost model = info@;
        let mut r: Vec<Action> = Vec::new();
        if !group_info_admits(&info, &peer, me) {
            assert(action_models(r@) =~= Seq::<ActionModel>::empty());
            return r;
        }
        let id = info.id;
        let fresh = self.learn_group(info);
        if fresh {
            r.push(Action::SaveGroup(id));
            r.push(Action::SaveGroupConvo(id));
            r.push(Action::Emit(EngineEvent::GroupInvited(id)));
            r.push(Action::Send { peer, payload: self.have_payload(&peer, SyncScope::Group(id)) });
            assert(action_models(r@) =~= group_news(id) + before.backfill(peer, model));
        } else {
            assert(action_models(r@) =~= Seq::<ActionModel>::empty());
        }
        r
    }

    /// Takes in a message to a group.
    fn take_group_message(
        &mut self,
        me: &PeerKey,
        peer: PeerKey,
        group: GroupId,
        message: Message,
    ) -> (r: Vec<Action>)
        ensures
            final(self)@ == old(self)@.after_payload(
                *me,
                peer,
                PayloadModel::GroupMessage { group, message },
                0,
            ),
            action_models(r@) == old(self)@.payload_actions(
                *me,
                peer,
                PayloadModel::GroupMessage { group, message },
            ),
    {
        let ghost before = self@;
        let mut r: Vec<Action> = Vec::new();
        if !group_allows(self, &group, &peer, me) {
            assert(action_models(r@) =~= Seq::<ActionModel>::empty());
            return r;
        }
        let mut c = take_convo(&mut self.group_convos, &group);
        c.apply(message.clone());
        self.group_convos.insert(group, c);
        proof {
            let after = before.with_group_convo(group, before.group_convo(group).applied(message));
            assert(self@.group_convos =~= after.group_convos);
            assert(self@ =~= after);
        }
        r.push(Action::SaveGroupConvo(group));
        r.push(Action::Emit(EngineEvent::GroupMessageReceived { group, message }));
        assert(action_models(r@) =~= seq![
            ActionModel::SaveGroupConvo(group),
            ActionModel::Emit(EventModel::GroupMessageReceived { group, message }),
        ]);
        r
    }

    /// Takes in the ids that a peer holds, and answers with what it is missing.
    fn take_have(
        &mut self,
        me: &PeerKey,
        peer: PeerKey,
        scope: SyncScope,
        ids: &[MessageId],
    ) -> (r: Vec<Action>)
        ensures
            final(self)@ == old(self)@.after_payload(
                *me,
                peer,
                PayloadModel::SyncHave { scope, ids: ids@ },
                0,
            ),
            action_models(r@) == old(self)@.payload_actions(
                *me,
                peer,
                PayloadModel::SyncHave { scope, ids: ids@ },
            ),
    {
        let ghost before = self@;
        let mut r: Vec<Action> = Vec::new();
        if let SyncScope::Direct = scope {
            r = self.absorb_peer_have(me, peer, ids);
        } else {
            assert(action_models(r@) =~= Seq::<ActionModel>::empty());
        }
        let ghost news = action_models(r@);
        if let Some(delta) = self.build_delta(me, &peer, scope, ids) {
            r.push(Action::Send { peer, payload: delta });
            assert(action_models(r@) =~= news + seq![
                ActionModel::Send { peer, payload: before.delta_for(peer, scope, ids@.to_set()) },
            ]);
        } else {
            assert(news =~= news + Seq::<ActionModel>::empty());
        }
        r
    }

    /// Takes in a payload of a peer.
    pub fn take_payload(&mut self, me: &PeerKey, peer: PeerKey, payload: Payload, now: u64) -> (r:
        Vec<Action>)
        ensures
            final(self)@ == old(self)@.after_payload(*me, peer, payload@, now),
            action_models(r@) == old(self)@.payload_actions(*me, peer, payload@),
    {
        match payload {
            Payload::Chat(message) => self.apply_direct_message(peer, message, now),
            Payload::FileOffer { message, key } => {
                self.expect_file(&message, key);
                self.apply_direct_message(peer, message, now)
            },
            Payload::GroupInvite(info) => self.take_invite(me, peer, info),
            Payload::GroupMessage { group, message } => self.take_group_message(
                me,
                peer,
                group,
                message,
            ),
            Payload::Profile(None) => {
                let r: Vec<Action> = Vec::new();
                assert(action_models(r@) =~= Seq::<ActionModel>::empty());
                r
            },
            Payload::Profile(Some(signed)) => {
                let r = self.take_profile(peer, &signed);
                proof {
                    if r@.len() == 0 {
                        assert(action_models(r@) =~= Seq::<ActionModel>::empty());
                    }
                }
                r
            },
            Payload::GroupAnnounce(info) => self.take_announce(me, peer, info),
            Payload::SyncHave { scope, ids } => self.take_have(me, peer, scope, ids.as_slice()),
            Payload::SyncDelta { scope, messages, reactions, read } => {
                let r = self.apply_delta(
                    me,
                    peer,
                    scope,
                    messages.as_slice(),
                    reactions.as_slice(),
                    read.as_slice(),
                );
                proof {
                    if r@.len() == 0 {
                        assert(action_models(r@) =~= Seq::<ActionModel>::empty());
                    }
                }
                r
            },
        }
    }

    /// Takes in a payload that was just decrypted: the exchange that waited for
    /// a session is let go first.
    pub fn handle_payload(&mut self, me: &PeerKey, peer: PeerKey, payload: Payload, now: u64) -> (r:
        Vec<Action>)
        ensures
            final(self)@ == old(self)@.flushed(peer).after_payload(*me, peer, payload@, now),
            action_models(r@) == old(self)@.flush_actions(peer) + old(self)@.flushed(
                peer,
            ).payload_actions(*me, peer, payload@),
    {
        let first = self.flush_post_connect(peer);
        let second = self.take_payload(me, peer, payload, now);
        join(first, second)
    }

    /// Takes in the bundle of a peer.
    pub fn take_bundle(&mut self, peer: PeerKey, bundle: PreKeyBundle) -> (r: Vec<Action>)
        ensures
            final(self)@ == (StateModel {
                bundles: old(self)@.bundles.insert(peer, bundle),
                ..old(self)@
            }).after_key(peer, bundle.identity_key),
            action_models(r@) == old(self)@.key_actions(peer, bundle.identity_key),
    {
        self.bundles.insert(peer, bundle);
        self.check_pin(peer, bundle.identity_key)
    }
}

} // verus!
