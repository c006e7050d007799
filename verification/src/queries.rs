//! What the owner of a node can ask it, and how a node starts.

use crate::bytes::same_key;
use crate::contact::Contact;
#[allow(unused_imports)]
use crate::contact::ContactModel;
use crate::conversation::{Conversation, Snapshot};
#[allow(unused_imports)]
use crate::conversation::ConversationModel;
use crate::keyed::ByteMap;
#[allow(unused_imports)]
use crate::keyed::in_order;
use crate::node::Node;
#[allow(unused_imports)]
use crate::order::{filter_start, filter_step, items, map_step};
use crate::protocol::{Action, DeliveryStatus, EngineEvent, GroupId, GroupInfo, PeerKey};
#[allow(unused_imports)]
use crate::protocol::{action_models, action_models_push, ActionModel, EventModel, GroupModel};
use crate::ratchet::MessagingAccount;
use crate::state::{delivered, State};
#[allow(unused_imports)]
use crate::state::{views, views_insert, views_remove, StateModel};
use crate::sync::Message;
#[allow(unused_imports)]
use crate::sync::{reaction_models, reactions_in_order};
use vstd::prelude::*;

verus! {

broadcast use {action_models_push, views_insert, views_remove};

/// Contacts by their peers. A later one takes the place of an earlier one.
pub open spec fn contacts_by_peer(s: Seq<Contact>) -> Map<PeerKey, ContactModel>
    decreases s.len(),
{
    if s.len() == 0 {
        Map::empty()
    } else {
        contacts_by_peer(s.drop_last()).insert(s.last().peer, s.last()@)
    }
}

/// Groups by their ids. A later one takes the place of an earlier one.
pub open spec fn groups_by_id(s: Seq<GroupInfo>) -> Map<GroupId, GroupModel>
    decreases s.len(),
{
    if s.len() == 0 {
        Map::empty()
    } else {
        groups_by_id(s.drop_last()).insert(s.last().id, s.last()@)
    }
}

/// Conversations by their keys, restored from snapshots. A later one takes the
/// place of an earlier one.
pub open spec fn restored_by_key<const N: usize>(s: Seq<([u8; N], Snapshot)>) -> Map<
    [u8; N],
    ConversationModel,
>
    decreases s.len(),
{
    if s.len() == 0 {
        Map::empty()
    } else {
        restored_by_key(s.drop_last()).insert(s.last().0, s.last().1.restores())
    }
}

/// Telling the owner of problems with the vault.
pub open spec fn warn(details: Seq<String>) -> Seq<ActionModel> {
    details.map_values(|d: String| ActionModel::Emit(EventModel::StorageWarning { detail: d@ }))
}

/// Restores conversations from snapshots.
fn restore_all<const N: usize>(snaps: &Vec<([u8; N], Snapshot)>) -> (r: ByteMap<N, Conversation>)
    ensures
        views(r@) == restored_by_key(snaps@),
{
    let mut r: ByteMap<N, Conversation> = ByteMap::new();
    let mut i: usize = 0;
    assert(views(r@) =~= restored_by_key(snaps@.take(0)));
    while i < snaps.len()
        invariant
            i <= snaps.len(),
            views(r@) == restored_by_key(snaps@.take(i as int)),
        decreases snaps.len() - i,
    {
        r.insert(snaps[i].0, Conversation::restore(&snaps[i].1));
        assert(snaps@.take(i + 1).drop_last() =~= snaps@.take(i as int));
        i = i + 1;
    }
    assert(snaps@.take(i as int) =~= snaps@);
    r
}

/// A message of somebody else that we have not read.
pub open spec fn unread_by(c: ConversationModel, me: PeerKey) -> spec_fn(Message) -> bool {
    |m: Message| m.author != me && m.lamport > c.watermark(me)
}

/// The number of messages of others above our own watermark.
pub open spec fn unread_count(c: ConversationModel, me: PeerKey) -> nat {
    c.ordered().filter(unread_by(c, me)).len()
}

/// Counts the messages of others above our own watermark.
fn count_unread(c: &Conversation, me: &PeerKey) -> (r: usize)
    ensures
        r == unread_count(c@, *me),
{
    let mine = c.read_watermark(me);
    let ordered = c.messages_ordered();
    let ghost all = items(ordered@);
    let ghost pred = unread_by(c@, *me);
    let mut n: usize = 0;
    let mut i: usize = 0;
    proof {
        filter_start(all, pred);
    }
    while i < ordered.len()
        invariant
            i <= ordered.len(),
            n <= i,
            mine == c@.watermark(*me),
            all == items(ordered@),
            pred == unread_by(c@, *me),
            n == all.take(i as int).filter(pred).len(),
        decreases ordered.len() - i,
    {
        let m = ordered[i];
        proof {
            assert(all[i as int] == *m);
            filter_step(all, i as int, pred);
        }
        if !same_key(&m.author, me) && m.lamport > mine {
            n = n + 1;
        }
        i = i + 1;
    }
    assert(all.take(i as int) =~= all);
    n
}

/// Copies of the messages of a conversation in causal order.
fn copy_ordered(c: &Conversation) -> (r: Vec<Message>)
    ensures
        r@ == c@.ordered(),
{
    let ordered = c.messages_ordered();
    let ghost all = items(ordered@);
    let mut r: Vec<Message> = Vec::new();
    let mut i: usize = 0;
    while i < ordered.len()
        invariant
            i <= ordered.len(),
            all == items(ordered@),
            r@ == all.take(i as int),
        decreases ordered.len() - i,
    {
        r.push(ordered[i].clone());
        assert(all[i as int] == *ordered@[i as int]);
        i = i + 1;
        assert(r@ =~= all.take(i as int));
    }
    assert(r@ =~= all);
    r
}

impl StateModel {
    /// How far a message has got, if it is ours.
    pub open spec fn status(self, me: PeerKey, peer: PeerKey, m: Message) -> Option<DeliveryStatus> {
        if m.author != me {
            None
        } else if self.delivered(peer, m) {
            Some(DeliveryStatus::Delivered)
        } else if self.queued_for(peer).contains(m.id) {
            Some(DeliveryStatus::Queued)
        } else {
            Some(DeliveryStatus::Sent)
        }
    }

    /// A message with how far it has got.
    pub open spec fn with_status(self, me: PeerKey, peer: PeerKey) -> spec_fn(Message) -> (
        Message,
        Option<DeliveryStatus>,
    ) {
        |m: Message| (m, self.status(me, peer, m))
    }

    /// A peer that is not a contact yet.
    pub open spec fn is_stranger(self) -> spec_fn(PeerKey) -> bool {
        |p: PeerKey| !self.contacts.contains_key(p)
    }
}

impl Node {
    /// A node that knows nothing and keeps nothing.
    pub fn new(id: PeerKey, messaging: MessagingAccount) -> (r: Self)
        ensures
            r.id == id,
            r.messaging == messaging,
            r.state@ == StateModel::empty(),
    {
        Node { id, messaging, state: State::default() }
    }

    /// A node with what its vault held.
    pub fn load(
        id: PeerKey,
        messaging: MessagingAccount,
        contacts: &Vec<Contact>,
        convos: &Vec<(PeerKey, Snapshot)>,
        groups: &Vec<GroupInfo>,
        group_convos: &Vec<(GroupId, Snapshot)>,
        warnings: Vec<String>,
    ) -> (r: (Self, Vec<Action>))
        ensures
            r.0.id == id,
            r.0.messaging == messaging,
            r.0.state@ == (StateModel {
                contacts: contacts_by_peer(contacts@),
                conversations: restored_by_key(convos@),
                groups: groups_by_id(groups@),
                group_convos: restored_by_key(group_convos@),
                startup_warnings: warnings@,
                ..StateModel::empty()
            }),
            action_models(r.1@) == warn(warnings@),
    {
        let mut state = State::default();
        let mut i: usize = 0;
        assert(views(state.contacts@) =~= contacts_by_peer(contacts@.take(0)));
        while i < contacts.len()
            invariant
                i <= contacts.len(),
                state@ == (StateModel {
                    contacts: contacts_by_peer(contacts@.take(i as int)),
                    ..StateModel::empty()
                }),
            decreases contacts.len() - i,
        {
            state.contacts.insert(contacts[i].peer, contacts[i].clone());
            assert(contacts@.take(i + 1).drop_last() =~= contacts@.take(i as int));
            i = i + 1;
            assert(state@ =~= (StateModel {
                contacts: contacts_by_peer(contacts@.take(i as int)),
                ..StateModel::empty()
            }));
        }
        assert(contacts@.take(i as int) =~= contacts@);
        state.conversations = restore_all(convos);
        let ghost mid = state@;
        let mut i: usize = 0;
        assert(views(state.groups@) =~= groups_by_id(groups@.take(0)));
        assert(mid =~= (StateModel { groups: groups_by_id(groups@.take(0)), ..mid }));
        while i < groups.len()
            invariant
                i <= groups.len(),
                state@ == (StateModel { groups: groups_by_id(groups@.take(i as int)), ..mid }),
            decreases groups.len() - i,
        {
            state.groups.insert(groups[i].id, groups[i].clone());
            assert(groups@.take(i + 1).drop_last() =~= groups@.take(i as int));
            i = i + 1;
            assert(state@ =~= (StateModel { groups: groups_by_id(groups@.take(i as int)), ..mid }));
        }
        assert(groups@.take(i as int) =~= groups@);
        state.group_convos = restore_all(group_convos);
        let mut actions: Vec<Action> = Vec::new();
        let ghost tell = |d: String|
            ActionModel::Emit(EventModel::StorageWarning { detail: d@ });
        let mut i: usize = 0;
        assert(action_models(actions@) =~= warnings@.take(0).map_values(tell));
        while i < warnings.len()
            invariant
                i <= warnings.len(),
                tell == (|d: String| ActionModel::Emit(EventModel::StorageWarning { detail: d@ })),
                action_models(actions@) == warnings@.take(i as int).map_values(tell),
            decreases warnings.len() - i,
        {
            proof {
                map_step(warnings@, i as int, tell);
            }
            actions.push(
                Action::Emit(EngineEvent::StorageWarning { detail: warnings[i].clone() }),
            );
            i = i + 1;
        }
        assert(warnings@.take(i as int) =~= warnings@);
        state.startup_warnings = warnings;
        (Node { id, messaging, state }, actions)
    }

    /// The id of this node.
    pub fn id(&self) -> (r: PeerKey)
        ensures
            r == self.id,
    {
        self.id
    }

    /// The peers that are visible on the network.
    pub fn discovered_peers(&self) -> (r: Vec<PeerKey>)
        ensures
            r@ == in_order(self.state@.discovered),
    {
        self.state.discovered.to_vec()
    }

    /// The peers that are visible on the network and not contacts yet.
    pub fn nearby(&self) -> (r: Vec<PeerKey>)
        ensures
            r@ == in_order(self.state@.discovered).filter(self.state@.is_stranger()),
    {
        let all = self.state.discovered.to_vec();
        let ghost pred = self.state@.is_stranger();
        let mut r: Vec<PeerKey> = Vec::new();
        let mut i: usize = 0;
        proof {
            filter_start(all@, pred);
        }
        while i < all.len()
            invariant
                i <= all.len(),
                pred == self.state@.is_stranger(),
                r@ == all@.take(i as int).filter(pred),
            decreases all.len() - i,
        {
            proof {
                filter_step(all@, i as int, pred);
            }
            if !self.state.contacts.contains(&all[i]) {
                r.push(all[i]);
            }
            i = i + 1;
        }
        assert(all@.take(i as int) =~= all@);
        r
    }

    /// The peers with a live connection.
    pub fn connected_peers(&self) -> (r: Vec<PeerKey>)
        ensures
            r@ == in_order(self.state@.conns.dom()),
    {
        self.state.conns.keys()
    }

    /// The contacts in the order of their ids.
    pub fn contacts(&self) -> (r: Vec<Contact>)
        ensures
            r@.map_values(|c: Contact| c@) == in_order(self.state@.contacts.dom()).map_values(
                |p: PeerKey| self.state@.contacts[p],
            ),
    {
        let ghost ids = in_order(self.state@.contacts.dom());
        let ghost of = |p: PeerKey| self.state@.contacts[p];
        let n = self.state.contacts.len();
        let mut r: Vec<Contact> = Vec::new();
        let mut i: usize = 0;
        assert(self.state@.contacts.dom() =~= self.state.contacts@.dom());
        while i < n
            invariant
                i <= n,
                n == ids.len(),
                ids == in_order(self.state@.contacts.dom()),
                self.state@.contacts.dom() == self.state.contacts@.dom(),
                of == (|p: PeerKey| self.state@.contacts[p]),
                r@.map_values(|c: Contact| c@) == ids.take(i as int).map_values(of),
            decreases n - i,
        {
            let ghost done = r@;
            r.push(self.state.contacts.value_at(i).clone());
            proof {
                map_step(ids, i as int, of);
                assert(r@.map_values(|c: Contact| c@) =~= done.map_values(|c: Contact| c@).push(
                    r@.last()@,
                ));
            }
            i = i + 1;
        }
        assert(ids.take(i as int) =~= ids);
        r
    }

    /// The groups in the order of their ids.
    pub fn groups(&self) -> (r: Vec<GroupInfo>)
        ensures
            r@.map_values(|g: GroupInfo| g@) == in_order(self.state@.groups.dom()).map_values(
                |g: GroupId| self.state@.groups[g],
            ),
    {
        let ghost ids = in_order(self.state@.groups.dom());
        let ghost of = |g: GroupId| self.state@.groups[g];
        let n = self.state.groups.len();
        let mut r: Vec<GroupInfo> = Vec::new();
        let mut i: usize = 0;
        assert(self.state@.groups.dom() =~= self.state.groups@.dom());
        while i < n
            invariant
                i <= n,
                n == ids.len(),
                ids == in_order(self.state@.groups.dom()),
                self.state@.groups.dom() == self.state.groups@.dom(),
                of == (|g: GroupId| self.state@.groups[g]),
                r@.map_values(|g: GroupInfo| g@) == ids.take(i as int).map_values(of),
            decreases n - i,
        {
            let ghost done = r@;
            r.push(self.state.groups.value_at(i).clone());
            proof {
                map_step(ids, i as int, of);
                assert(r@.map_values(|g: GroupInfo| g@) =~= done.map_values(
                    |g: GroupInfo| g@,
                ).push(r@.last()@));
            }
            i = i + 1;
        }
        assert(ids.take(i as int) =~= ids);
        r
    }

    /// The warnings from loading the vault.
    pub fn startup_warnings(&self) -> (r: Vec<String>)
        ensures
            r@ == self.state@.startup_warnings,
    {
        let mut r: Vec<String> = Vec::new();
        let mut i: usize = 0;
        while i < self.state.startup_warnings.len()
            invariant
                i <= self.state.startup_warnings.len(),
                r@ == self.state.startup_warnings@.take(i as int),
            decreases self.state.startup_warnings.len() - i,
        {
            r.push(self.state.startup_warnings[i].clone());
            i = i + 1;
            assert(r@ =~= self.state.startup_warnings@.take(i as int));
        }
        assert(r@ =~= self.state.startup_warnings@);
        r
    }

    /// The messages of the conversation with a peer in causal order.
    pub fn conversation(&self, peer: &PeerKey) -> (r: Vec<Message>)
        ensures
            r@ == self.state@.convo(*peer).ordered(),
    {
        match self.state.conversations.get(peer) {
            Some(c) => copy_ordered(c),
            None => copy_ordered(&Conversation::new()),
        }
    }

    /// The messages of the conversation of a group in causal order.
    pub fn group_conversation(&self, group: &GroupId) -> (r: Vec<Message>)
        ensures
            r@ == self.state@.group_convo(*group).ordered(),
    {
        match self.state.group_convos.get(group) {
            Some(c) => copy_ordered(c),
            None => copy_ordered(&Conversation::new()),
        }
    }

    /// The texts of the conversation with a peer in causal order.
    pub fn conversation_bodies(&self, peer: &PeerKey) -> (r: Vec<String>)
        ensures
            r@ == self.state@.convo(*peer).ordered().map_values(|m: Message| m.body),
    {
        let all = self.conversation(peer);
        let ghost body = |m: Message| m.body;
        let mut r: Vec<String> = Vec::new();
        let mut i: usize = 0;
        while i < all.len()
            invariant
                i <= all.len(),
                body == (|m: Message| m.body),
                r@ == all@.take(i as int).map_values(body),
            decreases all.len() - i,
        {
            proof {
                map_step(all@, i as int, body);
            }
            r.push(all[i].body.clone());
            i = i + 1;
        }
        assert(all@.take(i as int) =~= all@);
        r
    }

    /// The messages of the conversation with a peer in causal order, each of
    /// ours with how far it has got.
    pub fn conversation_with_status(&self, peer: &PeerKey) -> (r: Vec<
        (Message, Option<DeliveryStatus>),
    >)
        ensures
            r@ == self.state@.convo(*peer).ordered().map_values(
                self.state@.with_status(self.id, *peer),
            ),
    {
        let all = self.conversation(peer);
        let ghost f = self.state@.with_status(self.id, *peer);
        let mut r: Vec<(Message, Option<DeliveryStatus>)> = Vec::new();
        let mut i: usize = 0;
        while i < all.len()
            invariant
                i <= all.len(),
                f == self.state@.with_status(self.id, *peer),
                r@ == all@.take(i as int).map_values(f),
            decreases all.len() - i,
        {
            proof {
                map_step(all@, i as int, f);
            }
            let m = &all[i];
            let status = if !same_key(&m.author, &self.id) {
                None
            } else if delivered(&self.state, peer, m) {
                Some(DeliveryStatus::Delivered)
            } else {
                let waits = match self.state.queued.get(peer) {
                    Some(q) => q.contains(&m.id),
                    None => false,
                };
                if waits {
                    Some(DeliveryStatus::Queued)
                } else {
                    Some(DeliveryStatus::Sent)
                }
            };
            r.push((m.clone(), status));
            i = i + 1;
        }
        assert(all@.take(i as int) =~= all@);
        r
    }

    /// The number of messages of a peer that we have not read.
    pub fn unread_direct(&self, peer: &PeerKey) -> (r: usize)
        ensures
            r == unread_count(self.state@.convo(*peer), self.id),
    {
        match self.state.conversations.get(peer) {
            Some(c) => count_unread(c, &self.id),
            None => count_unread(&Conversation::new(), &self.id),
        }
    }

    /// The number of messages of a group that we have not read.
    pub fn unread_group(&self, gid: &GroupId) -> (r: usize)
        ensures
            r == unread_count(self.state@.group_convo(*gid), self.id),
    {
        match self.state.group_convos.get(gid) {
            Some(c) => count_unread(c, &self.id),
            None => count_unread(&Conversation::new(), &self.id),
        }
    }

    /// The snapshot of the conversation with a peer, to be stored.
    pub fn convo_snapshot(&self, peer: &PeerKey) -> (r: Option<Snapshot>)
        ensures
            match r {
                Some(s) => self.state@.conversations.contains_key(*peer) && is_snapshot_of(
                    s,
                    self.state@.conversations[*peer],
                ),
                None => !self.state@.conversations.contains_key(*peer),
            },
    {
        match self.state.conversations.get(peer) {
            Some(c) => Some(c.snapshot()),
            None => None,
        }
    }

    /// The snapshot of the conversation of a group, to be stored.
    pub fn group_convo_snapshot(&self, gid: &GroupId) -> (r: Option<Snapshot>)
        ensures
            match r {
                Some(s) => self.state@.group_convos.contains_key(*gid) && is_snapshot_of(
                    s,
                    self.state@.group_convos[*gid],
                ),
                None => !self.state@.group_convos.contains_key(*gid),
            },
    {
        match self.state.group_convos.get(gid) {
            Some(c) => Some(c.snapshot()),
            None => None,
        }
    }
}

/// The snapshot captures the conversation but for its clock.
pub open spec fn is_snapshot_of(s: Snapshot, c: ConversationModel) -> bool {
    &&& s.messages@ == c.by_id(c.messages.dom())
    &&& reaction_models(s.reactions@) == reactions_in_order(c.reactions)
    &&& s.read@ == c.marks()
}

} // verus!
