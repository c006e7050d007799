//! Connections: how they start and end, and what is on the network.

use crate::bytes::{key_lt, same_key};
#[allow(unused_imports)]
use crate::bytes::lex_lt;
use crate::contact::Contact;
#[allow(unused_imports)]
use crate::contact::ContactModel;
use crate::frames::join;
use crate::node::Node;
use crate::protocol::{Action, EngineEvent, PeerKey, Wire};
#[allow(unused_imports)]
use crate::protocol::{action_models, action_models_push, ActionModel, EventModel};
#[allow(unused_imports)]
use crate::ratchet::{is_ciphertext, opening_key, spent, Messages, RatchetSession};
use crate::ratchet::PreKeyBundle;
use crate::state::{take_convo, State};
#[allow(unused_imports)]
use crate::state::{views_insert, views_remove, StateModel};
use vstd::prelude::*;

verus! {

broadcast use {action_models_push, views_insert, views_remove};

/// A connection whose peer has not said `Hello` yet. Frames can overtake the
/// `Hello`; they are kept and handled after it.
pub struct Handshake {
    pub early: Vec<Wire>,
}

impl Handshake {
    /// A connection on which nothing was received.
    pub fn new() -> (r: Self)
        ensures
            r.early@.len() == 0,
    {
        Handshake { early: Vec::new() }
    }

    /// Takes in what was received: a `Hello` ends the handshake, any other
    /// frame is kept, and what is no frame is passed over.
    pub fn on_frame(&mut self, frame: Option<Wire>) -> (r: Option<PreKeyBundle>)
        ensures
            match frame {
                Some(Wire::Hello { bundle }) => r == Some(bundle) && final(self).early@ == old(
                    self,
                ).early@,
                Some(other) => r is None && final(self).early@ == old(self).early@.push(other),
                None => r is None && final(self).early@ == old(self).early@,
            },
    {
        match frame {
            Some(Wire::Hello { bundle }) => Some(bundle),
            Some(other) => {
                self.early.push(other);
                None
            },
            None => None,
        }
    }
}

impl StateModel {
    /// After a connection was registered, before its messaging key is looked
    /// at: sessions belong to one connection, so old ones are gone, and the peer
    /// is a contact from now on.
    pub open spec fn connected(self, peer: PeerKey, bundle: PreKeyBundle, now: u64) -> Self {
        StateModel {
            bundles: self.bundles.insert(peer, bundle),
            sessions: self.sessions.remove(peer),
            inbound_sessions: self.inbound_sessions.remove(peer),
            conns: self.conns.insert(peer, self.next_gen),
            next_gen: (self.next_gen + 1) as u64,
            conversations: self.conversations.insert(peer, self.convo(peer)),
            contacts: self.contacts.insert(
                peer,
                if self.contacts.contains_key(peer) {
                    ContactModel { last_seen: now, ..self.contacts[peer] }
                } else {
                    ContactModel::fresh(peer, now)
                },
            ),
            ..self
        }
    }

    /// After a connection was registered. Of the two peers the one with the
    /// smaller id opens the exchange, the other waits for a session.
    pub open spec fn registered(self, me: PeerKey, peer: PeerKey, bundle: PreKeyBundle, now: u64) -> Self {
        let s = self.connected(peer, bundle, now).after_key(peer, bundle.identity_key);
        if lex_lt(me@, peer@) {
            s
        } else {
            StateModel { pending_post_connect: s.pending_post_connect.insert(peer), ..s }
        }
    }

    /// What a new connection makes the node do.
    pub open spec fn register_actions(self, me: PeerKey, peer: PeerKey, bundle: PreKeyBundle, now: u64) -> Seq<
        ActionModel,
    > {
        seq![ActionModel::SaveContact(peer)] + self.connected(peer, bundle, now).key_actions(
            peer,
            bundle.identity_key,
        ) + (if self.contacts.contains_key(peer) {
            Seq::empty()
        } else {
            seq![ActionModel::Emit(EventModel::ContactUpdated(peer))]
        }) + seq![ActionModel::Emit(EventModel::PeerConnected(peer))] + (if lex_lt(me@, peer@) {
            seq![ActionModel::PostConnect(peer)]
        } else {
            Seq::empty()
        })
    }

    /// The connection of this generation is the live one.
    pub open spec fn is_live(self, peer: PeerKey, generation: u64) -> bool {
        self.conns.contains_key(peer) && self.conns[peer] == generation
    }

    /// After a connection closed: only the live one takes anything with it.
    pub open spec fn disconnected(self, peer: PeerKey, generation: u64, now: u64) -> Self {
        if self.is_live(peer, generation) {
            (StateModel {
                conns: self.conns.remove(peer),
                sessions: self.sessions.remove(peer),
                inbound_sessions: self.inbound_sessions.remove(peer),
                ..self
            }).seen(peer, now)
        } else {
            self
        }
    }
}

impl State {
    /// Registers a connection whose peer has said `Hello`, and gives the
    /// generation of the connection.
    pub fn register(&mut self, me: &PeerKey, peer: PeerKey, bundle: PreKeyBundle, now: u64) -> (r: (
        u64,
        Vec<Action>,
    ))
        requires
            old(self)@.next_gen < u64::MAX,
        ensures
            r.0 == old(self)@.next_gen,
            final(self)@ == old(self)@.registered(*me, peer, bundle, now),
            action_models(r.1@) == old(self)@.register_actions(*me, peer, bundle, now),
    {
        let ghost before = self@;
        self.bundles.insert(peer, bundle);
        let _ = self.sessions.remove(&peer);
        let _ = self.inbound_sessions.remove(&peer);
        let generation = self.next_gen;
        self.conns.insert(peer, generation);
        self.next_gen = self.next_gen + 1;
        let c = take_convo(&mut self.conversations, &peer);
        self.conversations.insert(peer, c);
        let (is_new, contact) = match self.contacts.remove(&peer) {
            Some(c) => {
                let mut c = c;
                c.last_seen = now;
                (false, c)
            },
            None => (true, Contact::fresh(peer, now)),
        };
        self.contacts.insert(peer, contact);
        let ghost mid = before.connected(peer, bundle, now);
        proof {
            assert(self@.conversations =~= mid.conversations);
            assert(self@.contacts =~= mid.contacts);
            assert(self@ =~= mid);
        }
        let mut first: Vec<Action> = Vec::new();
        first.push(Action::SaveContact(peer));
        let second = self.check_pin(peer, bundle.identity_key);
        let ghost pinned = self@;
        let mut third: Vec<Action> = Vec::new();
        if is_new {
            third.push(Action::Emit(EngineEvent::ContactUpdated(peer)));
        }
        third.push(Action::Emit(EngineEvent::PeerConnected(peer)));
        if key_lt(me, &peer) {
            third.push(Action::PostConnect(peer));
        } else {
            self.pending_post_connect.insert(peer);
        }
        proof {
            assert(self@ =~= before.registered(*me, peer, bundle, now));
            assert(action_models(first@) =~= seq![ActionModel::SaveContact(peer)]);
            let news = if before.contacts.contains_key(peer) {
                Seq::<ActionModel>::empty()
            } else {
                seq![ActionModel::Emit(EventModel::ContactUpdated(peer))]
            };
            let start = if lex_lt(me@, peer@) {
                seq![ActionModel::PostConnect(peer)]
            } else {
                Seq::<ActionModel>::empty()
            };
            assert(action_models(third@) =~= news + seq![
                ActionModel::Emit(EventModel::PeerConnected(peer)),
            ] + start);
        }
        let r = join(join(first, second), third);
        assert(action_models(r@) =~= before.register_actions(*me, peer, bundle, now));
        (generation, r)
    }

    /// Notes that a connection has closed.
    pub fn connection_closed(&mut self, peer: PeerKey, generation: u64, now: u64) -> (r: Vec<Action>)
        ensures
            final(self)@ == old(self)@.disconnected(peer, generation, now),
            action_models(r@) == if old(self)@.is_live(peer, generation) {
                seq![
                    ActionModel::SaveContact(peer),
                    ActionModel::Emit(EventModel::PeerDisconnected(peer)),
                    ActionModel::Emit(EventModel::ContactUpdated(peer)),
                ]
            } else {
                Seq::empty()
            },
    {
        let ghost before = self@;
        let mut r: Vec<Action> = Vec::new();
        let live = match self.conns.get(&peer) {
            Some(g) => *g == generation,
            None => false,
        };
        if !live {
            assert(action_models(r@) =~= Seq::<ActionModel>::empty());
            return r;
        }
        let _ = self.conns.remove(&peer);
        let _ = self.sessions.remove(&peer);
        let _ = self.inbound_sessions.remove(&peer);
        let ghost mid = StateModel {
            conns: before.conns.remove(peer),
            sessions: before.sessions.remove(peer),
            inbound_sessions: before.inbound_sessions.remove(peer),
            ..before
        };
        assert(self@ =~= mid);
        self.note_seen(peer, now);
        r.push(Action::SaveContact(peer));
        r.push(Action::Emit(EngineEvent::PeerDisconnected(peer)));
        r.push(Action::Emit(EngineEvent::ContactUpdated(peer)));
        assert(action_models(r@) =~= seq![
            ActionModel::SaveContact(peer),
            ActionModel::Emit(EventModel::PeerDisconnected(peer)),
            ActionModel::Emit(EventModel::ContactUpdated(peer)),
        ]);
        r
    }

    /// Notes that a peer is visible on the network, and tells whether to dial
    /// it: a contact that appears and has no live connection is dialled. We do
    /// not discover ourselves.
    pub fn peer_discovered(&mut self, me: &PeerKey, peer: PeerKey) -> (r: (bool, Vec<Action>))
        ensures
            ({
                let s = old(self)@;
                let appears = peer != *me && !s.discovered.contains(peer);
                &&& final(self)@ == (StateModel {
                    discovered: if peer == *me {
                        s.discovered
                    } else {
                        s.discovered.insert(peer)
                    },
                    ..s
                })
                &&& r.0 == (appears && s.contacts.contains_key(peer) && !s.conns.contains_key(peer))
                &&& action_models(r.1@) == if appears {
                    seq![ActionModel::Emit(EventModel::PeerDiscovered(peer))]
                } else {
                    Seq::empty()
                }
            }),
    {
        let ghost before = self@;
        let mut r: Vec<Action> = Vec::new();
        if same_key(&peer, me) {
            assert(action_models(r@) =~= Seq::<ActionModel>::empty());
            return (false, r);
        }
        let appears = self.discovered.insert(peer);
        assert(self@ =~= (StateModel { discovered: before.discovered.insert(peer), ..before }));
        if !appears {
            assert(action_models(r@) =~= Seq::<ActionModel>::empty());
            return (false, r);
        }
        r.push(Action::Emit(EngineEvent::PeerDiscovered(peer)));
        assert(action_models(r@) =~= seq![ActionModel::Emit(EventModel::PeerDiscovered(peer))]);
        (self.contacts.contains(&peer) && !self.conns.contains(&peer), r)
    }

    /// Notes that a peer is gone from the network.
    pub fn peer_expired(&mut self, peer: &PeerKey)
        ensures
            final(self)@ == (StateModel {
                discovered: old(self)@.discovered.remove(*peer),
                ..old(self)@
            }),
    {
        let _ = self.discovered.remove(peer);
    }
}

/// How often it is looked whether the tasks of a closed node have ended.
pub const DRAIN_POLLS: usize = 40;

/// The pause between two looks, in milliseconds.
pub const DRAIN_PAUSE_MS: u64 = 50;

/// What to do while a closed node has tasks that may still use its vault.
#[derive(Debug, Clone, Copy, PartialEq, Eq, Structural)]
pub enum DrainStep {
    /// They have ended.
    Done,
    /// Look again after so many milliseconds.
    Wait(u64),
    /// They have had their time.
    GiveUp,
}

/// Decides, after so many looks, what to do about so many tasks.
pub fn drain_step(tasks: usize, looks: usize) -> (r: DrainStep)
    ensures
        r == if tasks == 0 {
            DrainStep::Done
        } else if looks >= DRAIN_POLLS {
            DrainStep::GiveUp
        } else {
            DrainStep::Wait(DRAIN_PAUSE_MS)
        },
{
    if tasks == 0 {
        DrainStep::Done
    } else if looks >= DRAIN_POLLS {
        DrainStep::GiveUp
    } else {
        DrainStep::Wait(DRAIN_PAUSE_MS)
    }
}

/// What a frame gave: things to do, and the plaintext of a payload that is to
/// be decoded and handed back.
pub struct FrameOutcome {
    pub actions: Vec<Action>,
    pub plaintext: Option<Vec<u8>>,
}

impl Node {
    /// Takes in one frame of a peer. The plaintext of an encrypted payload is
    /// handed out; what cannot be decrypted is dropped.
    pub fn handle_frame(&mut self, peer: PeerKey, wire: Wire) -> (r: FrameOutcome)
        ensures
            final(self).id == old(self).id,
            final(self).messaging@.identity_key == old(self).messaging@.identity_key,
            !(wire is Message) ==> final(self).messaging == old(self).messaging,
            ({
                let s = old(self).state@;
                let t = final(self).state@;
                let acts = action_models(r.actions@);
                match wire {
                    Wire::Hello { bundle } => {
                        &&& t == (StateModel {
                            bundles: s.bundles.insert(peer, bundle),
                            ..s
                        }).after_key(peer, bundle.identity_key)
                        &&& acts == s.key_actions(peer, bundle.identity_key)
                        &&& r.plaintext is None
                    },
                    Wire::Message { ciphertext } => {
                        &&& t.same_but_sessions(s, peer)
                        &&& acts == Seq::<ActionModel>::empty() || acts == seq![
                            ActionModel::SaveAccount,
                        ]
                        &&& if acts.len() == 1 {
                            spent(
                                old(self).messaging@,
                                final(self).messaging@,
                                opening_key(ciphertext@)->0,
                            )
                        } else {
                            final(self).messaging@ == old(self).messaging@
                        }
                        &&& match r.plaintext {
                            Some(plaintext) => t.read_from(
                                s,
                                old(self).messaging,
                                old(self).id,
                                peer,
                                ciphertext@,
                                plaintext@,
                                acts.len() == 1,
                            ),
                            None => {
                                &&& t.same_session_peers(s)
                                &&& t.keeps_sessions(s, peer)
                                &&& acts.len() == 0
                                &&& s.opening_of(old(self).messaging, peer, ciphertext@) is None
                            },
                        }
                        &&& !is_ciphertext(ciphertext@) ==> r.plaintext is None
                        &&& forall|from: RatchetSession, messages: Messages, i: int|
                            s.sessions.contains_key(peer) && #[trigger] s.sessions[peer].expects(
                                from,
                                messages,
                                i,
                                ciphertext@,
                            ) ==> {
                                &&& r.plaintext matches Some(plaintext)
                                &&& plaintext@ == messages[i].1
                                &&& acts.len() == 0
                                &&& t.sessions[peer].awaits(from, messages.remove(i))
                            }
                        &&& forall|from: RatchetSession, messages: Messages, i: int|
                            s.inbound_sessions.contains_key(peer)
                                && #[trigger] s.inbound_sessions[peer].expects(
                                from,
                                messages,
                                i,
                                ciphertext@,
                            ) ==> {
                                &&& r.plaintext matches Some(plaintext)
                                &&& acts.len() == 0
                                &&& {
                                    ||| s.sessions.contains_key(peer) && s.sessions[peer].decrypts(
                                        ciphertext@,
                                        plaintext@,
                                    )
                                    ||| plaintext@ == messages[i].1
                                        && t.inbound_sessions[peer].awaits(from, messages.remove(i))
                                }
                            }
                    },
                    Wire::Typing => {
                        &&& t == s
                        &&& acts == seq![ActionModel::Emit(EventModel::Typing(peer))]
                        &&& r.plaintext is None
                    },
                    Wire::Presence { online } => {
                        &&& t == s
                        &&& acts == seq![
                            ActionModel::Emit(EventModel::PresenceChanged { peer, online }),
                        ]
                        &&& r.plaintext is None
                    },
                    Wire::Read { up_to } => {
                        &&& t == s.after_read(old(self).id, peer, up_to)
                        &&& acts == seq![
                            ActionModel::SaveConvo(peer),
                            ActionModel::Emit(EventModel::ReadReceipt { peer, up_to }),
                        ] + crate::delivery::delivered_news(
                            peer,
                            s.with_convo(peer, s.convo(peer).marked(peer, up_to)).confirmed_by_read(
                                old(self).id,
                                peer,
                                up_to,
                            ),
                        )
                        &&& r.plaintext is None
                    },
                }
            }),
    {
        let mut actions: Vec<Action> = Vec::new();
        match wire {
            Wire::Hello { bundle } => {
                let actions = self.state.take_bundle(peer, bundle);
                FrameOutcome { actions, plaintext: None }
            },
            Wire::Message { ciphertext } => match self.decrypt_payload(peer, ciphertext.as_slice()) {
                Ok(d) => {
                    if d.accepted {
                        actions.push(Action::SaveAccount);
                        assert(action_models(actions@) =~= seq![ActionModel::SaveAccount]);
                    } else {
                        assert(action_models(actions@) =~= Seq::<ActionModel>::empty());
                    }
                    FrameOutcome { actions, plaintext: Some(d.plaintext) }
                },
                Err(_) => {
                    assert(action_models(actions@) =~= Seq::<ActionModel>::empty());
                    FrameOutcome { actions, plaintext: None }
                },
            },
            Wire::Typing => {
                actions.push(Action::Emit(EngineEvent::Typing(peer)));
                assert(action_models(actions@) =~= seq![
                    ActionModel::Emit(EventModel::Typing(peer)),
                ]);
                FrameOutcome { actions, plaintext: None }
            },
            Wire::Presence { online } => {
                actions.push(Action::Emit(EngineEvent::PresenceChanged { peer, online }));
                assert(action_models(actions@) =~= seq![
                    ActionModel::Emit(EventModel::PresenceChanged { peer, online }),
                ]);
                FrameOutcome { actions, plaintext: None }
            },
            Wire::Read { up_to } => {
                let actions = self.state.peer_read(&self.id, peer, up_to);
                FrameOutcome { actions, plaintext: None }
            },
        }
    }

    /// Takes in a decoded payload of a peer.
    pub fn handle_payload(&mut self, peer: PeerKey, payload: crate::protocol::Payload, now: u64) -> (r:
        Vec<Action>)
        ensures
            final(self).id == old(self).id,
            final(self).messaging == old(self).messaging,
            final(self).state@ == old(self).state@.flushed(peer).after_payload(
                old(self).id,
                peer,
                payload@,
                now,
            ),
            action_models(r@) == old(self).state@.flush_actions(peer) + old(self).state@.flushed(
                peer,
            ).payload_actions(old(self).id, peer, payload@),
    {
        self.state.handle_payload(&self.id, peer, payload, now)
    }
}

} // verus!
