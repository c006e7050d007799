//! Which of our messages have reached a peer.

use crate::bytes::same_key;
#[allow(unused_imports)]
use crate::order::{filter_start, filter_step, items, push_to_set};
use crate::protocol::{Action, DeliveryStatus, EngineEvent, PeerKey};
#[allow(unused_imports)]
use crate::protocol::{action_models, action_models_push, ActionModel, EventModel};
#[allow(unused_imports)]
use crate::state::{views_insert, views_remove, StateModel};
use crate::state::{take_convo, take_ids, State};
use crate::sync::{Message, MessageId};
use vstd::prelude::*;

verus! {

broadcast use {action_models_push, views_insert, views_remove};

/// The news that messages of our own have been delivered.
pub open spec fn delivered_news(peer: PeerKey, ids: Seq<MessageId>) -> Seq<ActionModel> {
    ids.map_values(
        |id: MessageId|
            ActionModel::Emit(
                EventModel::MessageStatus { peer, id, status: DeliveryStatus::Delivered },
            ),
    )
}

impl StateModel {
    /// The conversation with the peer holds a message of ours under this id.
    pub open spec fn owns(self, me: PeerKey, peer: PeerKey, id: MessageId) -> bool {
        &&& self.convo(peer).messages.contains_key(id)
        &&& self.convo(peer).messages[id].author == me
    }

    /// The message is ours, and the peer had not confirmed it.
    pub open spec fn unconfirmed(self, me: PeerKey, peer: PeerKey) -> spec_fn(MessageId) -> bool {
        |id: MessageId| !self.have_of(peer).contains(id) && self.owns(me, peer, id)
    }

    /// After the peer has confirmed to hold these messages: they are known to
    /// be held and no longer queued.
    pub open spec fn confirmed(self, peer: PeerKey, ids: Set<MessageId>) -> Self {
        StateModel {
            peer_have: self.peer_have.insert(peer, self.have_of(peer).union(ids)),
            queued: if self.queued.contains_key(peer) {
                self.queued.insert(peer, self.queued[peer].difference(ids))
            } else {
                self.queued
            },
            ..self
        }
    }

    /// The message is ours and at or before this time, and the peer had not
    /// confirmed it.
    pub open spec fn unread(self, me: PeerKey, peer: PeerKey, up_to: u64) -> spec_fn(
        Message,
    ) -> bool {
        |m: Message| m.author == me && m.lamport <= up_to && !self.have_of(peer).contains(m.id)
    }

    /// Our messages that a read mark of the peer confirms, in causal order.
    pub open spec fn confirmed_by_read(self, me: PeerKey, peer: PeerKey, up_to: u64) -> Seq<
        MessageId,
    > {
        self.convo(peer).ordered().filter(self.unread(me, peer, up_to)).map_values(
            |m: Message| m.id,
        )
    }

    /// After the peer has read up to a time: its watermark rises, and all of
    /// our messages up to there are confirmed.
    pub open spec fn after_read(self, me: PeerKey, peer: PeerKey, up_to: u64) -> Self {
        let s = self.with_convo(peer, self.convo(peer).marked(peer, up_to));
        s.confirmed(peer, s.confirmed_by_read(me, peer, up_to).to_set())
    }
}

impl State {
    /// Notes that the peer holds these messages: they are no longer queued.
    fn confirm(&mut self, peer: PeerKey, ids: &[MessageId])
        ensures
            final(self)@ == old(self)@.confirmed(peer, ids@.to_set()),
    {
        let ghost before = self@;
        let mut have = take_ids(&mut self.peer_have, &peer);
        let mut waiting = self.queued.remove(&peer);
        let ghost had = have@;
        let ghost queue = before.queued_for(peer);
        let mut i: usize = 0;
        assert(ids@.take(0).to_set() =~= Set::<MessageId>::empty());
        assert(had.union(Set::empty()) =~= had);
        assert(queue.difference(Set::empty()) =~= queue);
        while i < ids.len()
            invariant
                i <= ids.len(),
                have@ == had.union(ids@.take(i as int).to_set()),
                match waiting {
                    Some(q) => before.queued.contains_key(peer) && q@ == queue.difference(
                        ids@.take(i as int).to_set(),
                    ),
                    None => !before.queued.contains_key(peer),
                },
            decreases ids.len() - i,
        {
            let ghost seen = ids@.take(i as int);
            have.insert(ids[i]);
            if let Some(q) = &mut waiting {
                q.remove(&ids[i]);
            }
            proof {
                let x = ids@[i as int];
                assert(ids@.take(i + 1) =~= seen.push(x));
                push_to_set(seen, x);
                assert(had.union(seen.to_set()).insert(x) =~= had.union(ids@.take(i + 1).to_set()));
                assert(queue.difference(seen.to_set()).remove(x) =~= queue.difference(
                    ids@.take(i + 1).to_set(),
                ));
            }
            i = i + 1;
        }
        proof {
            assert(ids@.take(i as int) =~= ids@);
        }
        self.peer_have.insert(peer, have);
        if let Some(q) = waiting {
            self.queued.insert(peer, q);
        }
        proof {
            let after = before.confirmed(peer, ids@.to_set());
            assert(self@.peer_have =~= after.peer_have);
            assert(self@.queued =~= after.queued);
            assert(self@ =~= after);
        }
    }

    /// The news that messages of our own have been delivered.
    fn news(peer: PeerKey, ids: &Vec<MessageId>) -> (r: Vec<Action>)
        ensures
            action_models(r@) == delivered_news(peer, ids@),
    {
        let mut r: Vec<Action> = Vec::new();
        let mut i: usize = 0;
        while i < ids.len()
            invariant
                i <= ids.len(),
                action_models(r@) == delivered_news(peer, ids@.take(i as int)),
            decreases ids.len() - i,
        {
            r.push(
                Action::Emit(
                    EngineEvent::MessageStatus {
                        peer,
                        id: ids[i],
                        status: DeliveryStatus::Delivered,
                    },
                ),
            );
            i = i + 1;
            assert(action_models(r@) =~= delivered_news(peer, ids@.take(i as int)));
        }
        assert(ids@.take(i as int) =~= ids@);
        r
    }

    /// Learns which messages the peer holds, and tells which of ours that
    /// confirms.
    pub fn absorb_peer_have(&mut self, me: &PeerKey, peer: PeerKey, ids: &[MessageId]) -> (r: Vec<
        Action,
    >)
        ensures
            final(self)@ == old(self)@.confirmed(peer, ids@.to_set()),
            action_models(r@) == delivered_news(
                peer,
                ids@.filter(old(self)@.unconfirmed(*me, peer)),
            ),
    {
        let ghost before = self@;
        let ghost pred = before.unconfirmed(*me, peer);
        let mut fresh: Vec<MessageId> = Vec::new();
        let mut i: usize = 0;
        proof {
            filter_start(ids@, pred);
        }
        while i < ids.len()
            invariant
                i <= ids.len(),
                before == self@,
                pred == before.unconfirmed(*me, peer),
                fresh@ == ids@.take(i as int).filter(pred),
            decreases ids.len() - i,
        {
            let known = match self.peer_have.get(&peer) {
                Some(have) => have.contains(&ids[i]),
                None => false,
            };
            let mine = match self.conversations.get(&peer) {
                Some(c) => match c.message(&ids[i]) {
                    Some(m) => same_key(&m.author, me),
                    None => false,
                },
                None => false,
            };
            proof {
                filter_step(ids@, i as int, pred);
            }
            if !known && mine {
                fresh.push(ids[i]);
            }
            i = i + 1;
        }
        assert(ids@.take(i as int) =~= ids@);
        self.confirm(peer, ids);
        Self::news(peer, &fresh)
    }

    /// Takes in a read mark of the peer, and tells which of our messages that
    /// confirms.
    pub fn peer_read(&mut self, me: &PeerKey, peer: PeerKey, up_to: u64) -> (r: Vec<Action>)
        ensures
            final(self)@ == old(self)@.after_read(*me, peer, up_to),
            action_models(r@) == seq![
                ActionModel::SaveConvo(peer),
                ActionModel::Emit(EventModel::ReadReceipt { peer, up_to }),
            ] + delivered_news(
                peer,
                old(self)@.with_convo(
                    peer,
                    old(self)@.convo(peer).marked(peer, up_to),
                ).confirmed_by_read(*me, peer, up_to),
            ),
    {
        let ghost before = self@;
        let mut c = take_convo(&mut self.conversations, &peer);
        c.mark_read(peer, up_to);
        self.conversations.insert(peer, c);
        let ghost mid = before.with_convo(peer, before.convo(peer).marked(peer, up_to));
        proof {
            assert(self@.conversations =~= mid.conversations);
            assert(self@ =~= mid);
        }
        let fresh = self.read_by(me, &peer, up_to);
        self.confirm(peer, fresh.as_slice());
        let mut r: Vec<Action> = Vec::new();
        r.push(Action::SaveConvo(peer));
        r.push(Action::Emit(EngineEvent::ReadReceipt { peer, up_to }));
        let mut news = Self::news(peer, &fresh);
        let ghost head = r@;
        let ghost tail = news@;
        r.append(&mut news);
        proof {
            assert(action_models(r@) =~= action_models(head) + action_models(tail));
            assert(action_models(head) =~= seq![
                ActionModel::SaveConvo(peer),
                ActionModel::Emit(EventModel::ReadReceipt { peer, up_to }),
            ]);
        }
        r
    }

    /// Our messages that a read mark of the peer confirms, in causal order.
    fn read_by(&self, me: &PeerKey, peer: &PeerKey, up_to: u64) -> (r: Vec<MessageId>)
        requires
            self@.conversations.contains_key(*peer),
        ensures
            r@ == self@.confirmed_by_read(*me, *peer, up_to),
    {
        let mut fresh: Vec<MessageId> = Vec::new();
        let ghost pred = self@.unread(*me, *peer, up_to);
        if let Some(c) = self.conversations.get(peer) {
            let ordered = c.messages_ordered();
            let ghost all = items(ordered@);
            let mut i: usize = 0;
            proof {
                filter_start(all, pred);
                assert(fresh@ =~= all.take(0).filter(pred).map_values(|m: Message| m.id));
            }
            while i < ordered.len()
                invariant
                    i <= ordered.len(),
                    all == items(ordered@),
                    pred == self@.unread(*me, *peer, up_to),
                    fresh@ == all.take(i as int).filter(pred).map_values(|m: Message| m.id),
                decreases ordered.len() - i,
            {
                let m = ordered[i];
                let known = match self.peer_have.get(peer) {
                    Some(have) => have.contains(&m.id),
                    None => false,
                };
                proof {
                    assert(all[i as int] == *m);
                    filter_step(all, i as int, pred);
                }
                let ghost kept = all.take(i as int).filter(pred);
                if same_key(&m.author, me) && m.lamport <= up_to && !known {
                    fresh.push(m.id);
                    assert(fresh@ =~= kept.push(*m).map_values(|m: Message| m.id));
                }
                i = i + 1;
            }
            assert(all.take(i as int) =~= all);
        }
        fresh
    }
}

} // verus!
