//! What the owner of a node makes it do.

use crate::bytes::same_key;
#[allow(unused_imports)]
use crate::contact::{optional_text, ContactModel};
use crate::conversation::Conversation;
#[allow(unused_imports)]
use crate::conversation::ConversationModel;
use crate::identity::SignedProfile;
#[allow(unused_imports)]
use crate::identity::SignedProfileModel;
use crate::keyed::ByteSet;
#[allow(unused_imports)]
use crate::keyed::in_order;
use crate::node::Node;
#[allow(unused_imports)]
use crate::order::{filter_start, filter_step, items, map_step};
use crate::protocol::{
    copy_keys, Action, DeliveryStatus, EngineEvent, GroupId, GroupInfo, Payload, PeerKey,
    SyncScope, Wire,
};
#[allow(unused_imports)]
use crate::protocol::{
    action_models, action_models_push, ActionModel, EventModel, GroupModel, PayloadModel,
    payload_models, payload_models_push, signed_model, WireModel,
};
use crate::random::random_bytes;
use crate::state::{take_convo, take_ids, State};
#[allow(unused_imports)]
use crate::state::{views_insert, views_remove, StateModel};
use crate::sync::{Message, MessageId, MessageKind};
use vstd::prelude::*;

verus! {

broadcast use {action_models_push, payload_models_push, views_insert, views_remove};

impl StateModel {
    /// After a message of ours was queued for a peer.
    pub open spec fn with_queued(self, peer: PeerKey, id: MessageId) -> Self {
        StateModel { queued: self.queued.insert(peer, self.queued_for(peer).insert(id)), ..self }
    }

    /// After a contact was forgotten: nothing that is kept per peer is left.
    pub open spec fn without_contact(self, peer: PeerKey) -> Self {
        StateModel {
            contacts: self.contacts.remove(peer),
            conversations: self.conversations.remove(peer),
            conns: self.conns.remove(peer),
            sessions: self.sessions.remove(peer),
            inbound_sessions: self.inbound_sessions.remove(peer),
            bundles: self.bundles.remove(peer),
            pending_post_connect: self.pending_post_connect.remove(peer),
            peer_have: self.peer_have.remove(peer),
            queued: self.queued.remove(peer),
            ..self
        }
    }

    /// The groups that a peer shares with us, in the order of their ids.
    pub open spec fn shared_groups(self, peer: PeerKey) -> Seq<GroupId> {
        in_order(self.groups.dom()).filter(self.has_member(peer))
    }

    /// The peer is a member of the group.
    pub open spec fn has_member(self, peer: PeerKey) -> spec_fn(GroupId) -> bool {
        |g: GroupId| self.groups[g].members.contains(peer)
    }

    /// What is sent to a peer after a connection: our profile, the groups that
    /// we share, and what we hold in each shared conversation.
    pub open spec fn opening(self, peer: PeerKey, signed: Option<SignedProfileModel>) -> Seq<
        PayloadModel,
    > {
        seq![PayloadModel::Profile(signed)] + self.shared_groups(peer).map_values(
            self.announce(),
        ) + seq![self.have_payload(peer, SyncScope::Direct)] + self.shared_groups(peer).map_values(
            self.group_have(peer),
        )
    }

    /// The announcement of a group.
    pub open spec fn announce(self) -> spec_fn(GroupId) -> PayloadModel {
        |g: GroupId| PayloadModel::GroupAnnounce(self.groups[g])
    }

    /// What we hold in a group.
    pub open spec fn group_have(self, peer: PeerKey) -> spec_fn(GroupId) -> PayloadModel {
        |g: GroupId| self.have_payload(peer, SyncScope::Group(self.groups[g].id))
    }
}

/// The seconds after which an attempt to reach a peer before a send is given
/// up.
pub const DIAL_TIMEOUT_SECS: u64 = 3;

/// The Lamport time of the last message in causal order; 0 where there is none.
pub open spec fn last_time(c: ConversationModel) -> u64 {
    if c.ordered().len() > 0 {
        c.ordered().last().lamport
    } else {
        0
    }
}

/// Sending one payload to each of these peers, but not to ourselves.
pub open spec fn fan_out(me: PeerKey, members: Seq<PeerKey>, payload: PayloadModel) -> Seq<
    ActionModel,
> {
    members.filter(other_than(me)).map_values(send_of(payload))
}

/// Everybody but ourselves.
pub open spec fn other_than(me: PeerKey) -> spec_fn(PeerKey) -> bool {
    |m: PeerKey| m != me
}

/// Sending a payload to a peer.
pub open spec fn send_of(payload: PayloadModel) -> spec_fn(PeerKey) -> ActionModel {
    |m: PeerKey| ActionModel::Send { peer: m, payload }
}

impl State {
    /// Queues a message of ours for a peer.
    fn enqueue(&mut self, peer: PeerKey, id: MessageId)
        ensures
            final(self)@ == old(self)@.with_queued(peer, id),
    {
        let ghost before = self@;
        let mut q = take_ids(&mut self.queued, &peer);
        q.insert(id);
        self.queued.insert(peer, q);
        proof {
            assert(self@.queued =~= before.with_queued(peer, id).queued);
            assert(self@ =~= before.with_queued(peer, id));
        }
    }

    /// The groups that a peer shares with us, in the order of their ids.
    fn shared_groups(&self, peer: &PeerKey) -> (r: Vec<GroupId>)
        ensures
            r@ == self@.shared_groups(*peer),
            forall|i: int| 0 <= i < r@.len() ==> self@.groups.contains_key(#[trigger] r@[i]),
    {
        let ghost ids = in_order(self@.groups.dom());
        let ghost pred = self@.has_member(*peer);
        let n = self.groups.len();
        let mut r: Vec<GroupId> = Vec::new();
        let mut i: usize = 0;
        proof {
            filter_start(ids, pred);
            assert(self@.groups.dom() =~= self.groups@.dom());
        }
        while i < n
            invariant
                i <= n,
                n == ids.len(),
                ids == in_order(self@.groups.dom()),
                self@.groups.dom() == self.groups@.dom(),
                pred == self@.has_member(*peer),
                r@ == ids.take(i as int).filter(pred),
                forall|k: int| 0 <= k < r@.len() ==> self@.groups.contains_key(#[trigger] r@[k]),
            decreases n - i,
        {
            let g = self.groups.key_at(i);
            let info = self.groups.value_at(i);
            proof {
                filter_step(ids, i as int, pred);
            }
            if crate::state::holds(&info.members, peer) {
                r.push(g);
            }
            i = i + 1;
        }
        assert(ids.take(i as int) =~= ids);
        r
    }

    /// What is sent to a peer after a connection.
    pub fn post_connect(&self, peer: &PeerKey, signed: Option<SignedProfile>) -> (r: Vec<Payload>)
        ensures
            payload_models(r@) == self@.opening(*peer, signed_model(signed)),
    {
        let ghost profile = signed_model(signed);
        let shared = self.shared_groups(peer);
        let mut r: Vec<Payload> = Vec::new();
        r.push(Payload::Profile(signed));
        let ghost head = seq![PayloadModel::Profile(profile)];
        let ghost announce = self@.announce();
        let ghost have = self@.group_have(*peer);
        assert(payload_models(r@) =~= head + shared@.take(0).map_values(announce));
        let mut i: usize = 0;
        while i < shared.len()
            invariant
                i <= shared.len(),
                announce == self@.announce(),
                forall|k: int|
                    0 <= k < shared@.len() ==> self@.groups.contains_key(#[trigger] shared@[k]),
                payload_models(r@) == head + shared@.take(i as int).map_values(announce),
            decreases shared.len() - i,
        {
            assert(self@.groups.contains_key(shared@[i as int]));
            proof {
                map_step(shared@, i as int, announce);
            }
            if let Some(info) = self.groups.get(&shared[i]) {
                r.push(Payload::GroupAnnounce(info.clone()));
            }
            i = i + 1;
            assert(payload_models(r@) =~= head + shared@.take(i as int).map_values(announce));
        }
        assert(shared@.take(i as int) =~= shared@);
        let ghost first = head + shared@.map_values(announce) + seq![
            self@.have_payload(*peer, SyncScope::Direct),
        ];
        r.push(self.have_payload(peer, SyncScope::Direct));
        assert(payload_models(r@) =~= first + shared@.take(0).map_values(have));
        let mut i: usize = 0;
        while i < shared.len()
            invariant
                i <= shared.len(),
                have == self@.group_have(*peer),
                forall|k: int|
                    0 <= k < shared@.len() ==> self@.groups.contains_key(#[trigger] shared@[k]),
                payload_models(r@) == first + shared@.take(i as int).map_values(have),
            decreases shared.len() - i,
        {
            assert(self@.groups.contains_key(shared@[i as int]));
            proof {
                map_step(shared@, i as int, have);
            }
            if let Some(info) = self.groups.get(&shared[i]) {
                r.push(self.have_payload(peer, SyncScope::Group(info.id)));
            }
            i = i + 1;
            assert(payload_models(r@) =~= first + shared@.take(i as int).map_values(have));
        }
        assert(shared@.take(i as int) =~= shared@);
        assert(payload_models(r@) =~= self@.opening(*peer, profile));
        r
    }
}

/// What goes to every member of a group.
pub enum ToMembers<'a> {
    Invite(&'a GroupInfo),
    Message(GroupId, &'a Message),
}

impl<'a> View for ToMembers<'a> {
    type V = PayloadModel;

    open spec fn view(&self) -> PayloadModel {
        match *self {
            ToMembers::Invite(info) => PayloadModel::GroupInvite(info@),
            ToMembers::Message(group, message) => PayloadModel::GroupMessage {
                group,
                message: *message,
            },
        }
    }
}

impl<'a> ToMembers<'a> {
    /// The payload for one member.
    pub fn payload(&self) -> (r: Payload)
        ensures
            r@ == self@,
    {
        match self {
            ToMembers::Invite(info) => Payload::GroupInvite((*info).clone()),
            ToMembers::Message(group, message) => Payload::GroupMessage {
                group: *group,
                message: (*message).clone(),
            },
        }
    }
}

/// Sends one payload to each of these peers, but not to ourselves.
fn fan_out_actions(me: &PeerKey, members: &Vec<PeerKey>, what: ToMembers) -> (r: Vec<Action>)
    ensures
        action_models(r@) == fan_out(*me, members@, what@),
{
    let ghost payload = what@;
    let ghost others = other_than(*me);
    let ghost send = send_of(payload);
    let mut r: Vec<Action> = Vec::new();
    let mut i: usize = 0;
    proof {
        filter_start(members@, others);
        assert(action_models(r@) =~= members@.take(0).filter(others).map_values(send));
    }
    while i < members.len()
        invariant
            i <= members.len(),
            payload == what@,
            others == other_than(*me),
            send == send_of(payload),
            action_models(r@) == members@.take(i as int).filter(others).map_values(send),
        decreases members.len() - i,
    {
        let peer = members[i];
        let ghost kept = members@.take(i as int).filter(others);
        proof {
            filter_step(members@, i as int, others);
        }
        if !same_key(&peer, me) {
            r.push(Action::Send { peer, payload: what.payload() });
            assert(action_models(r@) =~= kept.push(peer).map_values(send));
        }
        i = i + 1;
    }
    assert(members@.take(i as int) =~= members@);
    r
}

/// What a message to a peer is sent as.
pub fn chat_payload(message: &Message) -> (r: Payload)
    ensures
        r@ == PayloadModel::Chat(*message),
{
    Payload::Chat(message.clone())
}

/// How an attempt to send a text ended.
#[derive(Debug, Clone, Copy, PartialEq, Eq, Structural)]
pub enum SendAttempt {
    /// There is no connection to the peer, and dialling it gave none.
    Unconnected,
    /// The text could not be encrypted for the peer.
    Unencrypted,
    /// The frame was written to the connection, or could not be.
    Written(bool),
}

/// Whether a text was sent: it was encrypted and written to a connection. In
/// all other cases it is queued.
pub fn was_sent(attempt: SendAttempt) -> (r: bool)
    ensures
        r == (attempt == SendAttempt::Written(true)),
{
    match attempt {
        SendAttempt::Unconnected => false,
        SendAttempt::Unencrypted => false,
        SendAttempt::Written(written) => written,
    }
}

impl Node {
    /// Records a text for a peer, which is then to be sent as
    /// [`chat_payload`] and settled with [`Node::settle_send`].
    pub fn send_text(&mut self, peer: PeerKey, body: &str, now: u64) -> (r: (Message, Vec<Action>))
        requires
            old(self).state@.convo(peer).lamport < u64::MAX,
        ensures
            final(self).id == old(self).id,
            final(self).messaging == old(self).messaging,
            r.0.author == old(self).id,
            r.0.lamport == old(self).state@.convo(peer).lamport + 1,
            r.0.sent_at == now,
            r.0.body@ == body@,
            r.0.kind == MessageKind::Text,
            final(self).state@ == old(self).state@.with_convo(
                peer,
                old(self).state@.convo(peer).authored(r.0),
            ),
            action_models(r.1@) == seq![ActionModel::SaveConvo(peer)],
    {
        let ghost before = self.state@;
        let mut c = take_convo(&mut self.state.conversations, &peer);
        let m = c.create_text(self.id, now, body);
        self.state.conversations.insert(peer, c);
        proof {
            let after = before.with_convo(peer, before.convo(peer).authored(m));
            assert(self.state@.conversations =~= after.conversations);
            assert(self.state@ =~= after);
        }
        let mut r: Vec<Action> = Vec::new();
        r.push(Action::SaveConvo(peer));
        assert(action_models(r@) =~= seq![ActionModel::SaveConvo(peer)]);
        (m, r)
    }

    /// Settles a text: it was written to a live connection, or it is queued and
    /// goes over with the next sync.
    pub fn settle_send(&mut self, peer: PeerKey, id: MessageId, sent: bool) -> (r: (
        DeliveryStatus,
        Vec<Action>,
    ))
        ensures
            final(self).id == old(self).id,
            final(self).messaging == old(self).messaging,
            r.0 == if sent {
                DeliveryStatus::Sent
            } else {
                DeliveryStatus::Queued
            },
            final(self).state@ == if sent {
                old(self).state@
            } else {
                old(self).state@.with_queued(peer, id)
            },
            action_models(r.1@) == seq![
                ActionModel::Emit(EventModel::MessageStatus { peer, id, status: r.0 }),
            ],
    {
        let status = if sent {
            DeliveryStatus::Sent
        } else {
            self.state.enqueue(peer, id);
            DeliveryStatus::Queued
        };
        let mut r: Vec<Action> = Vec::new();
        r.push(Action::Emit(EngineEvent::MessageStatus { peer, id, status }));
        assert(action_models(r@) =~= seq![
            ActionModel::Emit(EventModel::MessageStatus { peer, id, status }),
        ]);
        (status, r)
    }

    /// Makes a group of the given id. We are a member of it, and each other
    /// member is invited.
    pub fn create_group_with_id(&mut self, id: GroupId, name: String, members: &[PeerKey]) -> (r:
        Vec<Action>)
        ensures
            final(self).id == old(self).id,
            final(self).messaging == old(self).messaging,
            ({
                let me = old(self).id;
                let all = in_order(members@.to_set().insert(me));
                let info = GroupModel { id, name: name@, members: all, creator: me };
                let s = old(self).state@;
                &&& final(self).state@ == (StateModel {
                    groups: s.groups.insert(id, info),
                    group_convos: s.group_convos.insert(id, s.group_convo(id)),
                    ..s
                })
                &&& action_models(r@) == seq![
                    ActionModel::SaveGroup(id),
                    ActionModel::SaveGroupConvo(id),
                ] + fan_out(me, all, PayloadModel::GroupInvite(info))
            }),
    {
        let ghost before = self.state@;
        let mut set = ByteSet::from_slice(members);
        set.insert(self.id);
        let all = set.to_vec();
        let info = GroupInfo { id, name, members: all, creator: self.id };
        self.state.groups.insert(id, info.clone());
        let c = take_convo(&mut self.state.group_convos, &id);
        self.state.group_convos.insert(id, c);
        proof {
            assert(self.state@.groups =~= before.groups.insert(id, info@));
            assert(self.state@.group_convos =~= before.group_convos.insert(
                id,
                before.group_convo(id),
            ));
        }
        let mut first: Vec<Action> = Vec::new();
        first.push(Action::SaveGroup(id));
        first.push(Action::SaveGroupConvo(id));
        assert(action_models(first@) =~= seq![
            ActionModel::SaveGroup(id),
            ActionModel::SaveGroupConvo(id),
        ]);
        let invites = fan_out_actions(&self.id, &info.members, ToMembers::Invite(&info));
        crate::frames::join(first, invites)
    }

    /// Makes a group with a random id.
    pub fn create_group(&mut self, name: String, members: &[PeerKey]) -> (r: (GroupId, Vec<Action>))
        ensures
            final(self).id == old(self).id,
            final(self).messaging == old(self).messaging,
            ({
                let me = old(self).id;
                let all = in_order(members@.to_set().insert(me));
                let info = GroupModel { id: r.0, name: name@, members: all, creator: me };
                let s = old(self).state@;
                &&& final(self).state@ == (StateModel {
                    groups: s.groups.insert(r.0, info),
                    group_convos: s.group_convos.insert(r.0, s.group_convo(r.0)),
                    ..s
                })
                &&& action_models(r.1@) == seq![
                    ActionModel::SaveGroup(r.0),
                    ActionModel::SaveGroupConvo(r.0),
                ] + fan_out(me, all, PayloadModel::GroupInvite(info))
            }),
    {
        let id = random_bytes::<16>();
        let actions = self.create_group_with_id(id, name, members);
        (id, actions)
    }

    /// Records a text for a group and sends it to every other member. Members
    /// who cannot be reached get it with their next sync. There is no answer
    /// where the group is unknown.
    pub fn send_group_text(&mut self, group: GroupId, body: &str, now: u64) -> (r: Option<
        (Message, Vec<Action>),
    >)
        requires
            old(self).state@.groups.contains_key(group) ==> old(self).state@.group_convo(
                group,
            ).lamport < u64::MAX,
        ensures
            final(self).id == old(self).id,
            final(self).messaging == old(self).messaging,
            ({
                let s = old(self).state@;
                match r {
                    Some((m, acts)) => {
                        &&& s.groups.contains_key(group)
                        &&& m.author == old(self).id
                        &&& m.lamport == s.group_convo(group).lamport + 1
                        &&& m.sent_at == now
                        &&& m.body@ == body@
                        &&& m.kind == MessageKind::Text
                        &&& final(self).state@ == s.with_group_convo(
                            group,
                            s.group_convo(group).authored(m),
                        )
                        &&& action_models(acts@) == seq![ActionModel::SaveGroupConvo(group)]
                            + fan_out(
                            old(self).id,
                            s.groups[group].members,
                            PayloadModel::GroupMessage { group, message: m },
                        )
                    },
                    None => !s.groups.contains_key(group) && final(self).state@ == s,
                }
            }),
    {
        let ghost before = self.state@;
        let members = match self.state.groups.get(&group) {
            Some(info) => copy_keys(&info.members),
            None => return None,
        };
        let mut c = take_convo(&mut self.state.group_convos, &group);
        let m = c.create_text(self.id, now, body);
        self.state.group_convos.insert(group, c);
        proof {
            let after = before.with_group_convo(group, before.group_convo(group).authored(m));
            assert(self.state@.group_convos =~= after.group_convos);
            assert(self.state@ =~= after);
        }
        let mut first: Vec<Action> = Vec::new();
        first.push(Action::SaveGroupConvo(group));
        assert(action_models(first@) =~= seq![ActionModel::SaveGroupConvo(group)]);
        let sends = fan_out_actions(&self.id, &members, ToMembers::Message(group, &m));
        Some((m, crate::frames::join(first, sends)))
    }

    /// Records that we have read up to a time, and tells the peer.
    pub fn mark_read(&mut self, peer: PeerKey, up_to: u64) -> (r: Vec<Action>)
        ensures
            final(self).id == old(self).id,
            final(self).messaging == old(self).messaging,
            final(self).state@ == old(self).state@.with_convo(
                peer,
                old(self).state@.convo(peer).marked(old(self).id, up_to),
            ),
            action_models(r@) == seq![
                ActionModel::SaveConvo(peer),
                ActionModel::SendWire { peer, wire: WireModel::Read { up_to } },
            ],
    {
        let ghost before = self.state@;
        let mut c = take_convo(&mut self.state.conversations, &peer);
        c.mark_read(self.id, up_to);
        self.state.conversations.insert(peer, c);
        proof {
            let after = before.with_convo(peer, before.convo(peer).marked(self.id, up_to));
            assert(self.state@.conversations =~= after.conversations);
            assert(self.state@ =~= after);
        }
        let mut r: Vec<Action> = Vec::new();
        r.push(Action::SaveConvo(peer));
        r.push(Action::SendWire { peer, wire: Wire::Read { up_to } });
        assert(action_models(r@) =~= seq![
            ActionModel::SaveConvo(peer),
            ActionModel::SendWire { peer, wire: WireModel::Read { up_to } },
        ]);
        r
    }

    /// Marks the whole conversation with a peer as read. Where there is none,
    /// nothing happens.
    pub fn mark_read_direct(&mut self, peer: PeerKey) -> (r: Vec<Action>)
        ensures
            final(self).id == old(self).id,
            final(self).messaging == old(self).messaging,
            ({
                let s = old(self).state@;
                let up_to = last_time(s.convo(peer));
                if s.conversations.contains_key(peer) {
                    &&& final(self).state@ == s.with_convo(
                        peer,
                        s.convo(peer).marked(old(self).id, up_to),
                    )
                    &&& action_models(r@) == seq![
                        ActionModel::SaveConvo(peer),
                        ActionModel::SendWire { peer, wire: WireModel::Read { up_to } },
                    ]
                } else {
                    &&& final(self).state@ == s
                    &&& r@.len() == 0
                }
            }),
    {
        match self.state.conversations.get(&peer) {
            Some(c) => {
                let up_to = last_time_of(c);
                self.mark_read(peer, up_to)
            },
            None => Vec::new(),
        }
    }

    /// Marks the whole conversation of a group as read. Where there is none,
    /// nothing happens.
    pub fn mark_read_group(&mut self, gid: GroupId) -> (r: Vec<Action>)
        ensures
            final(self).id == old(self).id,
            final(self).messaging == old(self).messaging,
            ({
                let s = old(self).state@;
                if s.group_convos.contains_key(gid) {
                    &&& final(self).state@ == s.with_group_convo(
                        gid,
                        s.group_convo(gid).marked(old(self).id, last_time(s.group_convo(gid))),
                    )
                    &&& action_models(r@) == seq![ActionModel::SaveGroupConvo(gid)]
                } else {
                    &&& final(self).state@ == s
                    &&& r@.len() == 0
                }
            }),
    {
        let ghost before = self.state@;
        let mut r: Vec<Action> = Vec::new();
        if let Some(c) = self.state.group_convos.remove(&gid) {
            let mut c = c;
            let up_to = last_time_of(&c);
            c.mark_read(self.id, up_to);
            self.state.group_convos.insert(gid, c);
            proof {
                let after = before.with_group_convo(
                    gid,
                    before.group_convo(gid).marked(self.id, up_to),
                );
                assert(self.state@.group_convos =~= after.group_convos);
                assert(self.state@ =~= after);
            }
            r.push(Action::SaveGroupConvo(gid));
            assert(action_models(r@) =~= seq![ActionModel::SaveGroupConvo(gid)]);
        } else {
            assert(self.state@.group_convos =~= before.group_convos);
            assert(self.state@ =~= before);
        }
        r
    }

    /// Sets or clears the name that the owner chose for a contact.
    pub fn set_alias(&mut self, peer: PeerKey, alias: Option<String>) -> (r: Vec<Action>)
        ensures
            final(self).id == old(self).id,
            final(self).messaging == old(self).messaging,
            ({
                let s = old(self).state@;
                if s.contacts.contains_key(peer) {
                    &&& final(self).state@ == s.with_contact(
                        peer,
                        ContactModel { alias: optional_text(alias), ..s.contacts[peer] },
                    )
                    &&& action_models(r@) == contact_updated(peer)
                } else {
                    &&& final(self).state@ == s
                    &&& r@.len() == 0
                }
            }),
    {
        let ghost before = self.state@;
        let ghost name = optional_text(alias);
        let mut c = match self.state.contacts.remove(&peer) {
            Some(c) => c,
            None => {
                assert(self.state@.contacts =~= before.contacts);
                assert(self.state@ =~= before);
                return Vec::new();
            },
        };
        c.alias = alias;
        self.state.contacts.insert(peer, c);
        proof {
            let after = before.with_contact(
                peer,
                ContactModel { alias: name, ..before.contacts[peer] },
            );
            assert(self.state@.contacts =~= after.contacts);
            assert(self.state@ =~= after);
        }
        contact_updated_actions(peer)
    }

    /// Accepts a changed messaging key: the key that waits is pinned.
    pub fn accept_new_key(&mut self, peer: PeerKey) -> (r: Vec<Action>)
        ensures
            final(self).id == old(self).id,
            final(self).messaging == old(self).messaging,
            ({
                let s = old(self).state@;
                if s.contacts.contains_key(peer) {
                    let c = s.contacts[peer];
                    &&& final(self).state@ == s.with_contact(
                        peer,
                        match c.pending_msg_key {
                            Some(k) => ContactModel {
                                pinned_msg_key: Some(k),
                                pending_msg_key: None,
                                ..c
                            },
                            None => c,
                        },
                    )
                    &&& action_models(r@) == contact_updated(peer)
                } else {
                    &&& final(self).state@ == s
                    &&& r@.len() == 0
                }
            }),
    {
        let ghost before = self.state@;
        let mut c = match self.state.contacts.remove(&peer) {
            Some(c) => c,
            None => {
                assert(self.state@.contacts =~= before.contacts);
                assert(self.state@ =~= before);
                return Vec::new();
            },
        };
        if let Some(k) = c.pending_msg_key {
            c.pinned_msg_key = Some(k);
            c.pending_msg_key = None;
        }
        let ghost now = c@;
        self.state.contacts.insert(peer, c);
        proof {
            let after = before.with_contact(peer, now);
            assert(self.state@.contacts =~= after.contacts);
            assert(self.state@ =~= after);
        }
        contact_updated_actions(peer)
    }

    /// Forgets a contact and everything that is kept for that peer, here and in
    /// the vault.
    pub fn remove_contact(&mut self, peer: PeerKey) -> (r: Vec<Action>)
        ensures
            final(self).id == old(self).id,
            final(self).messaging == old(self).messaging,
            final(self).state@ == old(self).state@.without_contact(peer),
            action_models(r@) == seq![
                ActionModel::DeleteContact(peer),
                ActionModel::Emit(EventModel::ContactUpdated(peer)),
            ],
    {
        let ghost before = self.state@;
        let _ = self.state.contacts.remove(&peer);
        let _ = self.state.conversations.remove(&peer);
        let _ = self.state.conns.remove(&peer);
        let _ = self.state.sessions.remove(&peer);
        let _ = self.state.inbound_sessions.remove(&peer);
        let _ = self.state.bundles.remove(&peer);
        let _ = self.state.pending_post_connect.remove(&peer);
        let _ = self.state.peer_have.remove(&peer);
        let _ = self.state.queued.remove(&peer);
        assert(self.state@ =~= before.without_contact(peer));
        let mut r: Vec<Action> = Vec::new();
        r.push(Action::DeleteContact(peer));
        r.push(Action::Emit(EngineEvent::ContactUpdated(peer)));
        assert(action_models(r@) =~= seq![
            ActionModel::DeleteContact(peer),
            ActionModel::Emit(EventModel::ContactUpdated(peer)),
        ]);
        r
    }
}

impl Node {
    /// Sends a frame to a peer on its live connection.
    pub fn send_to(&self, peer: PeerKey, wire: Wire) -> (r: Result<Action, String>)
        ensures
            if self.state@.conns.contains_key(peer) {
                r matches Ok(action) && action@ == (ActionModel::SendWire { peer, wire: wire@ })
            } else {
                r matches Err(e) && e@ == "no connection to peer"@
            },
    {
        if self.state.conns.contains(&peer) {
            Ok(Action::SendWire { peer, wire })
        } else {
            Err("no connection to peer".to_owned())
        }
    }

    /// Tells a peer that we are typing.
    pub fn notify_typing(&self, peer: PeerKey) -> (r: Result<Action, String>)
        ensures
            if self.state@.conns.contains_key(peer) {
                r matches Ok(action) && action@ == (ActionModel::SendWire {
                    peer,
                    wire: WireModel::Typing,
                })
            } else {
                r matches Err(e) && e@ == "no connection to peer"@
            },
    {
        self.send_to(peer, Wire::Typing)
    }

    /// Tells a peer our presence.
    pub fn set_presence(&self, peer: PeerKey, online: bool) -> (r: Result<Action, String>)
        ensures
            if self.state@.conns.contains_key(peer) {
                r matches Ok(action) && action@ == (ActionModel::SendWire {
                    peer,
                    wire: WireModel::Presence { online },
                })
            } else {
                r matches Err(e) && e@ == "no connection to peer"@
            },
    {
        self.send_to(peer, Wire::Presence { online })
    }

    /// Sends our signed profile, which was just stored, to every connected
    /// peer.
    pub fn publish_profile(&self, signed: &SignedProfile) -> (r: Vec<Action>)
        ensures
            action_models(r@) == in_order(self.state@.conns.dom()).map_values(
                send_of(PayloadModel::Profile(Some(signed@))),
            ),
    {
        let peers = self.connected_peers();
        let ghost send = send_of(PayloadModel::Profile(Some(signed@)));
        let mut r: Vec<Action> = Vec::new();
        let mut i: usize = 0;
        assert(action_models(r@) =~= peers@.take(0).map_values(send));
        while i < peers.len()
            invariant
                i <= peers.len(),
                send == send_of(PayloadModel::Profile(Some(signed@))),
                action_models(r@) == peers@.take(i as int).map_values(send),
            decreases peers.len() - i,
        {
            proof {
                map_step(peers@, i as int, send);
            }
            r.push(
                Action::Send { peer: peers[i], payload: Payload::Profile(Some(signed.clone())) },
            );
            i = i + 1;
        }
        assert(peers@.take(i as int) =~= peers@);
        r
    }
}

/// Storing a contact and telling the owner that it changed.
pub open spec fn contact_updated(peer: PeerKey) -> Seq<ActionModel> {
    seq![
        ActionModel::SaveContact(peer),
        ActionModel::Emit(EventModel::ContactUpdated(peer)),
    ]
}

/// Stores a contact and tells the owner that it changed.
fn contact_updated_actions(peer: PeerKey) -> (r: Vec<Action>)
    ensures
        action_models(r@) == contact_updated(peer),
{
    let mut r: Vec<Action> = Vec::new();
    r.push(Action::SaveContact(peer));
    r.push(Action::Emit(EngineEvent::ContactUpdated(peer)));
    assert(action_models(r@) =~= contact_updated(peer));
    r
}

/// The Lamport time of the last message in causal order; 0 where there is none.
fn last_time_of(c: &Conversation) -> (r: u64)
    ensures
        r == last_time(c@),
{
    let ordered = c.messages_ordered();
    assert(items(ordered@).len() == ordered@.len());
    if ordered.len() > 0 {
        let last = ordered[ordered.len() - 1];
        assert(items(ordered@).last() == *last);
        last.lamport
    } else {
        0
    }
}

} // verus!
