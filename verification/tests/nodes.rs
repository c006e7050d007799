use std::collections::{BTreeMap, VecDeque};
use vartalaap::contact::Contact;
use vartalaap::conversation::{Conversation, Snapshot};
use vartalaap::crypto::VaultKey;
use vartalaap::engine::{renamed, Engine};
use vartalaap::identity::{Identity, SignedProfile};
use vartalaap::lifecycle::{drain_step, DrainStep, Handshake};
use vartalaap::node::{Node, SessionError};
use vartalaap::protocol::{
    Action, DeliveryStatus, EngineEvent, GroupId, GroupInfo, Payload, PeerKey, SyncScope, Wire,
};
use vartalaap::persist::{convo_name, load_convos, load_prefix};
use vartalaap::ratchet::{
    is_prekey, MessagingAccount, PreKeyBundle, RatchetError, RatchetSession,
};
use vartalaap::sending::{chat_payload, was_sent, SendAttempt};
use vartalaap::state::{delivered, group_allows, State};
use vartalaap::store::{Store, VaultWrite};
use vartalaap::sync::{Message, MessageKind};

/// Nodes on a network in memory. Payloads travel encrypted: what is encrypted
/// is the number under which the payload waits.
struct Net {
    nodes: BTreeMap<PeerKey, Node>,
    events: BTreeMap<PeerKey, Vec<EngineEvent>>,
    saved: BTreeMap<PeerKey, Vec<String>>,
    profiles: BTreeMap<PeerKey, SignedProfile>,
    waiting: Vec<Option<Payload>>,
    todo: VecDeque<(PeerKey, Action)>,
    now: u64,
}

impl Net {
    fn new() -> Self {
        Net {
            nodes: BTreeMap::new(),
            events: BTreeMap::new(),
            saved: BTreeMap::new(),
            profiles: BTreeMap::new(),
            waiting: Vec::new(),
            todo: VecDeque::new(),
            now: 1000,
        }
    }

    /// Starts a node with the identity of a seed.
    fn start(&mut self, seed: u8) -> PeerKey {
        let id = Identity::from_secret_bytes([seed; 32]).public_id().to_bytes();
        self.nodes.insert(id, Node::new(id, MessagingAccount::new()));
        self.events.insert(id, Vec::new());
        id
    }

    fn node(&mut self, id: PeerKey) -> &mut Node {
        self.nodes.get_mut(&id).unwrap()
    }

    fn add(&mut self, id: PeerKey, actions: Vec<Action>) {
        for a in actions {
            self.todo.push_back((id, a));
        }
    }

    /// Connects two nodes and lets them talk until nothing is left to do.
    fn connect(&mut self, a: PeerKey, b: PeerKey) -> (u64, u64) {
        let bundle_a = self.node(a).messaging.prekey_bundle();
        let bundle_b = self.node(b).messaging.prekey_bundle();
        let now = self.now;
        let (gen_a, acts_a) = self.node(a).state.register(&a, b, bundle_b, now);
        let (gen_b, acts_b) = self.node(b).state.register(&b, a, bundle_a, now);
        self.add(a, acts_a);
        self.add(b, acts_b);
        self.run();
        (gen_a, gen_b)
    }

    /// Takes a node down: the others notice that their connections are gone.
    fn stop(&mut self, id: PeerKey) {
        self.nodes.remove(&id);
        let others: Vec<PeerKey> = self.nodes.keys().copied().collect();
        let now = self.now;
        for o in others {
            if let Some(g) = self.node(o).state.conns.get(&id).copied() {
                let acts = self.node(o).state.connection_closed(id, g, now);
                self.add(o, acts);
            }
        }
        self.run();
    }

    fn run(&mut self) {
        while let Some((id, action)) = self.todo.pop_front() {
            match action {
                Action::Emit(e) => self.events.get_mut(&id).unwrap().push(e),
                Action::Send { peer, payload } => {
                    self.send(id, peer, payload);
                }
                Action::SendWire { peer, wire } => {
                    if self.nodes[&id].state.conns.contains(&peer) {
                        self.deliver(id, peer, wire);
                    }
                }
                Action::PostConnect(peer) => {
                    let signed = self.profiles.get(&id).cloned();
                    for payload in self.nodes[&id].state.post_connect(&peer, signed) {
                        self.send(id, peer, payload);
                    }
                }
                other => self
                    .saved
                    .entry(id)
                    .or_default()
                    .push(format!("{other:?}")),
            }
        }
    }

    /// Encrypts a payload and sends it; tells whether it was written to a live
    /// connection.
    fn send(&mut self, from: PeerKey, to: PeerKey, payload: Payload) -> bool {
        let n = self.waiting.len() as u64;
        if !self.node(from).state.conns.contains(&to) {
            return false;
        }
        match self.node(from).encrypt_for(to, &n.to_le_bytes()) {
            Ok(ciphertext) => {
                self.waiting.push(Some(payload));
                self.deliver(from, to, Wire::Message { ciphertext });
                true
            }
            Err(_) => false,
        }
    }

    fn deliver(&mut self, from: PeerKey, to: PeerKey, wire: Wire) {
        let now = self.now;
        if !self.nodes.contains_key(&to) {
            return;
        }
        let outcome = self.node(to).handle_frame(from, wire);
        self.add(to, outcome.actions);
        if let Some(plaintext) = outcome.plaintext {
            let n = u64::from_le_bytes(plaintext.try_into().unwrap()) as usize;
            let payload = self.waiting[n].take().expect("delivered once");
            let acts = self.node(to).handle_payload(from, payload, now);
            self.add(to, acts);
        }
    }

    /// Records a text and sends it where the peer is connected.
    fn send_text(&mut self, from: PeerKey, to: PeerKey, body: &str) -> (Message, DeliveryStatus) {
        self.now += 1;
        let now = self.now;
        let (m, acts) = self.node(from).send_text(to, body, now);
        self.add(from, acts);
        let sent = self.send(from, to, chat_payload(&m));
        let (status, acts) = self.node(from).settle_send(to, m.id, sent);
        self.add(from, acts);
        self.run();
        (m, status)
    }

    fn bodies(&mut self, id: PeerKey, peer: PeerKey) -> Vec<String> {
        self.node(id).conversation_bodies(&peer)
    }

    fn saw(&self, id: PeerKey, pred: impl Fn(&EngineEvent) -> bool) -> bool {
        self.events[&id].iter().any(|e| pred(e))
    }

    fn contact(&mut self, id: PeerKey, peer: PeerKey) -> Contact {
        self.node(id)
            .contacts()
            .into_iter()
            .find(|c| c.peer == peer)
            .expect("a contact")
    }
}

fn received(e: &EngineEvent, body: &str) -> bool {
    matches!(e, EngineEvent::MessageReceived { message, .. } if message.body == body)
}

#[test]
fn two_nodes_exchange_e2e_messages() {
    let mut net = Net::new();
    let alice = net.start(7);
    let bob = net.start(9);
    assert_ne!(alice, bob);
    net.connect(alice, bob);

    // Alice -> Bob, end-to-end encrypted.
    let (m, status) = net.send_text(alice, bob, "hello bob");
    assert_eq!(status, DeliveryStatus::Sent);
    assert_eq!(m.author, alice);
    assert!(net.saw(bob, |e| received(e, "hello bob")));

    // Bob -> Alice on the established session.
    net.send_text(bob, alice, "hi alice");
    assert!(net.saw(alice, |e| {
        matches!(e, EngineEvent::MessageReceived { peer, message }
            if *peer == bob && message.author == bob && message.body == "hi alice")
    }));

    // Both replicas converged to the same two messages.
    let at_alice = net.bodies(alice, bob);
    assert_eq!(at_alice, net.bodies(bob, alice), "conversations must converge");
    assert_eq!(at_alice, vec!["hello bob", "hi alice"]);
}

#[test]
fn presence_typing_and_read_receipts() {
    let mut net = Net::new();
    let alice = net.start(13);
    let bob = net.start(14);
    assert_eq!(
        net.node(alice).notify_typing(bob).unwrap_err(),
        "no connection to peer"
    );
    net.connect(alice, bob);

    let typing = net.node(alice).notify_typing(bob).unwrap();
    let presence = net.node(alice).set_presence(bob, true).unwrap();
    net.add(alice, vec![typing, presence]);
    let acts = net.node(alice).mark_read(bob, 7);
    net.add(alice, acts);
    net.run();

    assert!(net.saw(bob, |e| matches!(e, EngineEvent::Typing(p) if *p == alice)));
    assert!(net.saw(bob, |e| {
        matches!(e, EngineEvent::PresenceChanged { peer, online } if *peer == alice && *online)
    }));
    assert!(net.saw(bob, |e| {
        matches!(e, EngineEvent::ReadReceipt { peer, up_to } if *peer == alice && *up_to == 7)
    }));
    assert_eq!(
        net.node(bob)
            .state
            .conversations
            .get(&alice)
            .unwrap()
            .read_watermark(&alice),
        7
    );
}

#[test]
fn three_nodes_group_chat() {
    let mut net = Net::new();
    let alice = net.start(31);
    let bob = net.start(32);
    let carol = net.start(33);
    net.connect(alice, bob);
    net.connect(alice, carol);
    net.connect(bob, carol);

    // Alice creates a group; Bob and Carol receive invites.
    let (gid, acts) = net.node(alice).create_group("study".into(), &[bob, carol]);
    net.add(alice, acts);
    net.run();
    for id in [bob, carol] {
        assert!(net.saw(id, |e| matches!(e, EngineEvent::GroupInvited(g) if *g == gid)));
    }

    // Alice → group reaches both.
    let (_, acts) = net.node(alice).send_group_text(gid, "hello team", 5).unwrap();
    net.add(alice, acts);
    net.run();
    // Bob → group reaches Alice and Carol (not just the creator).
    let (_, acts) = net.node(bob).send_group_text(gid, "hi from bob", 6).unwrap();
    net.add(bob, acts);
    net.run();
    for id in [alice, carol] {
        assert!(net.saw(id, |e| {
            matches!(e, EngineEvent::GroupMessageReceived { group, message }
                if *group == gid && message.author == bob && message.body == "hi from bob")
        }));
    }

    // All three converge on the same two messages.
    for id in [alice, bob, carol] {
        let history: Vec<String> = net
            .node(id)
            .group_conversation(&gid)
            .into_iter()
            .map(|m| m.body)
            .collect();
        assert_eq!(history, vec!["hello team", "hi from bob"]);
    }
    assert_eq!(net.node(carol).unread_group(&gid), 2);
    let acts = net.node(carol).mark_read_group(gid);
    assert_eq!(acts.len(), 1);
    assert_eq!(net.node(carol).unread_group(&gid), 0);
    assert!(net.node(carol).send_group_text([0u8; 16], "x", 1).is_none());
    assert!(net.node(carol).mark_read_group([0u8; 16]).is_empty());
}

#[test]
fn state_survives_restart() {
    let mut net = Net::new();
    let bob = net.start(61);
    let alice = net.start(62);
    net.connect(alice, bob);
    net.send_text(alice, bob, "remember me");
    net.send_text(bob, alice, "and me");
    let (gid, acts) = net.node(alice).create_group("study".into(), &[bob]);
    net.add(alice, acts);
    let (_, acts) = net.node(alice).send_group_text(gid, "group msg", 9).unwrap();
    net.add(alice, acts);
    net.run();

    // Everything that is stored is loaded again.
    let old = net.nodes.remove(&alice).unwrap();
    let convos = vec![(bob, old.convo_snapshot(&bob).unwrap())];
    let gconvos = vec![(gid, old.group_convo_snapshot(&gid).unwrap())];
    assert!(old.convo_snapshot(&[0u8; 32]).is_none());
    assert!(old.group_convo_snapshot(&[0u8; 16]).is_none());
    let (alice2, acts) = Node::load(
        alice,
        MessagingAccount::new(),
        &old.contacts(),
        &convos,
        &old.groups(),
        &gconvos,
        Vec::new(),
    );
    assert!(acts.is_empty());
    let bodies = alice2.conversation_bodies(&bob);
    assert_eq!(bodies, vec!["remember me", "and me"]);
    let groups = alice2.groups();
    assert_eq!(groups.len(), 1);
    assert_eq!(groups[0].name, "study");
    assert_eq!(alice2.group_conversation(&gid).len(), 1);
    let contacts = alice2.contacts();
    assert_eq!(contacts.len(), 1, "bob must be a persisted contact");
    assert_eq!(contacts[0].peer, bob);
    assert_eq!(alice2.id(), alice);
    assert!(alice2.connected_peers().is_empty());
}

#[test]
fn concurrent_first_sends_do_not_deadlock() {
    let mut net = Net::new();
    let x = net.start(71);
    let y = net.start(72);
    let (low, high) = if x < y { (x, y) } else { (y, x) };
    let bundle_low = net.node(low).messaging.prekey_bundle();
    let bundle_high = net.node(high).messaging.prekey_bundle();
    net.node(low).state.register(&low, high, bundle_high, 1);
    net.node(high).state.register(&high, low, bundle_low, 1);

    // Each side opens a session before it has heard of the other's.
    let from_low = net.node(low).encrypt_for(high, b"a1").unwrap();
    let from_high = net.node(high).encrypt_for(low, b"b1").unwrap();
    let at_high = net.node(high).decrypt_payload(low, &from_low).unwrap();
    let at_low = net.node(low).decrypt_payload(high, &from_high).unwrap();
    assert_eq!(at_high.plaintext, b"a1");
    assert_eq!(at_low.plaintext, b"b1");
    assert!(at_high.accepted && at_low.accepted);

    // What was opened by the side with the smaller id is used from now on; the
    // other session is only read.
    assert!(net.node(low).state.inbound_sessions.contains(&high));
    assert!(!net.node(high).state.inbound_sessions.contains(&low));
    for n in 0..3u8 {
        let c = net.node(high).encrypt_for(low, &[n]).unwrap();
        let got = net.node(low).decrypt_payload(high, &c).unwrap();
        assert_eq!(got.plaintext, [n]);
        assert!(!got.accepted);
        let c = net.node(low).encrypt_for(high, &[n]).unwrap();
        let got = net.node(high).decrypt_payload(low, &c).unwrap();
        assert_eq!(got.plaintext, [n]);
        assert!(!got.accepted);
    }
}

#[test]
fn profile_exchange_and_alias_precedence() {
    let mut net = Net::new();
    let alice = net.start(41);
    let bob = net.start(42);
    let identity = Identity::from_secret_bytes([41u8; 32]);
    let signed = identity.sign_profile(renamed(None, "Asha".into(), 10));
    net.profiles.insert(alice, signed);
    net.connect(bob, alice);

    let contact = net.contact(bob, alice);
    assert_eq!(contact.display_name().as_deref(), Some("Asha"));
    assert!(contact.pinned_msg_key.is_some(), "first bundle key is pinned");

    let acts = net.node(bob).set_alias(alice, Some("roomie".into()));
    net.add(bob, acts);
    net.run();
    assert_eq!(net.contact(bob, alice).display_name().as_deref(), Some("roomie"));
    net.node(bob).set_alias(alice, Some(String::new()));
    assert_eq!(net.contact(bob, alice).display_name().as_deref(), Some("Asha"));
    assert!(net.node(bob).set_alias([0u8; 32], None).is_empty());

    // A newer profile replaces an older one, and not the other way round.
    let newer = identity.sign_profile(renamed(None, "Asha D".into(), 20));
    let acts = net.node(alice).publish_profile(&newer);
    assert_eq!(acts.len(), 1);
    net.add(alice, acts);
    net.run();
    net.node(bob).set_alias(alice, None);
    assert_eq!(net.contact(bob, alice).display_name().as_deref(), Some("Asha D"));
    let older = identity.sign_profile(renamed(None, "Old".into(), 15));
    let mallory = Identity::from_secret_bytes([66u8; 32]);
    let forged = mallory.sign_profile(renamed(None, "Mallory".into(), 99));
    for p in [older, forged] {
        let acts = net.node(bob).handle_payload(alice, Payload::Profile(Some(p)), 1);
        assert!(acts.is_empty());
    }
    assert_eq!(net.contact(bob, alice).display_name().as_deref(), Some("Asha D"));
}

#[test]
fn changed_messaging_key_raises_pin_warning() {
    let mut net = Net::new();
    let bob = net.start(82);
    let alice = net.start(81);
    net.connect(bob, alice);
    let first_key = net.contact(bob, alice).pinned_msg_key.expect("pinned on first connect");
    net.stop(alice);

    // Same identity seed → same id, but a fresh messaging account.
    let alice = net.start(81);
    net.connect(bob, alice);
    let c = net.contact(bob, alice);
    let new_key = c.pending_msg_key.unwrap();
    let hex8 = |k: &[u8; 32]| k[..8].iter().map(|b| format!("{b:02x}")).collect::<String>();
    assert!(net.saw(bob, |e| {
        matches!(e, EngineEvent::PinWarning { peer, old_fingerprint, new_fingerprint }
            if *peer == alice
                && *old_fingerprint == hex8(&first_key)
                && *new_fingerprint == hex8(&new_key))
    }));
    assert_eq!(c.pinned_msg_key, Some(first_key), "old pin kept until accepted");

    net.node(bob).accept_new_key(alice);
    let c = net.contact(bob, alice);
    assert_ne!(c.pinned_msg_key, Some(first_key), "accept re-pins");
    assert_eq!(c.pinned_msg_key, Some(new_key));
    assert!(c.pending_msg_key.is_none());
    assert!(net.node(bob).accept_new_key([0u8; 32]).is_empty());
}

#[test]
fn offline_message_heals_on_reconnect() {
    let mut net = Net::new();
    let alice = net.start(91);
    let bob = net.start(92);
    net.connect(alice, bob);
    net.send_text(alice, bob, "seen live");
    net.stop(bob);
    assert!(net.saw(alice, |e| matches!(e, EngineEvent::PeerDisconnected(p) if *p == bob)));

    // Peer is gone: the text is queued instead of lost.
    let (_m, s) = net.send_text(alice, bob, "while you were out");
    assert_eq!(s, DeliveryStatus::Queued);

    // Bob restarts with the same identity and reconnects.
    let bob = net.start(92);
    net.connect(alice, bob);
    assert!(net.saw(bob, |e| {
        matches!(e, EngineEvent::HistorySynced { peer, scope: SyncScope::Direct, added }
            if *peer == alice && *added == 2)
    }));
    assert!(net.bodies(bob, alice).contains(&"while you were out".to_string()));
    assert_eq!(net.bodies(bob, alice), net.bodies(alice, bob));
}

#[test]
fn group_heals_transitively_for_offline_member() {
    let mut net = Net::new();
    let alice = net.start(93);
    let bob = net.start(94);
    let carol = net.start(95);
    net.stop(carol); // carol is offline from the start
    net.connect(alice, bob);
    // Group created while carol is offline; only bob gets the invite.
    let (gid, acts) = net.node(alice).create_group("study".into(), &[bob, carol]);
    net.add(alice, acts);
    let (_, acts) = net.node(alice).send_group_text(gid, "carol missed this", 5).unwrap();
    net.add(alice, acts);
    net.run();

    // Carol returns and connects to BOB (not the creator).
    let carol = net.start(95);
    net.connect(carol, bob);
    assert!(net.saw(carol, |e| matches!(e, EngineEvent::GroupInvited(g) if *g == gid)));
    assert_eq!(net.node(carol).groups().len(), 1);
    assert_eq!(
        net.node(carol).group_conversation(&gid)[0].body,
        "carol missed this"
    );
}

#[test]
fn unread_counts_and_mark_read() {
    let mut net = Net::new();
    let alice = net.start(111);
    let bob = net.start(112);
    net.connect(alice, bob);
    net.send_text(alice, bob, "one");
    net.send_text(alice, bob, "two");

    assert_eq!(net.node(bob).unread_direct(&alice), 2);
    assert_eq!(net.node(alice).unread_direct(&bob), 0, "own messages are not unread");
    let acts = net.node(bob).mark_read_direct(alice);
    net.add(bob, acts);
    net.run();
    assert_eq!(net.node(bob).unread_direct(&alice), 0);
    // The read receipt confirms both messages to Alice.
    let statuses = net.node(alice).conversation_with_status(&bob);
    assert!(statuses.iter().all(|(_, s)| *s == Some(DeliveryStatus::Delivered)));
    assert!(net.node(bob).mark_read_direct([0u8; 32]).is_empty());
    assert_eq!(net.node(bob).unread_direct(&[0u8; 32]), 0);
}

#[test]
fn queued_send_transitions_to_delivered() {
    let mut net = Net::new();
    let alice = net.start(101);
    let bob = net.start(102);
    net.connect(alice, bob);
    net.stop(bob);

    // Unreachable → queued, not an error.
    let (msg, status) = net.send_text(alice, bob, "catch up later");
    assert_eq!(status, DeliveryStatus::Queued);
    let statuses = net.node(alice).conversation_with_status(&bob);
    assert_eq!(statuses.last().unwrap().1, Some(DeliveryStatus::Queued));

    // Bob returns; alice reconnects; sync delivers; status flips.
    let bob = net.start(102);
    net.connect(alice, bob);
    assert!(net.saw(alice, |e| {
        matches!(e, EngineEvent::MessageStatus { id, status: DeliveryStatus::Delivered, .. }
            if *id == msg.id)
    }));
    assert!(net.bodies(bob, alice).contains(&"catch up later".to_string()));
    let statuses = net.node(alice).conversation_with_status(&bob);
    assert_eq!(statuses.last().unwrap().1, Some(DeliveryStatus::Delivered));
    assert!(delivered(&net.node(alice).state, &bob, &msg));
}

#[test]
fn group_allows_gates_on_known_group_and_mutual_membership() {
    let gid: GroupId = [1u8; 16];
    let unknown_gid: GroupId = [2u8; 16];
    let me: PeerKey = [0xAA; 32];
    let member: PeerKey = [0xBB; 32];
    let stranger: PeerKey = [0xCC; 32];

    let mut st = State::default();
    st.groups.insert(
        gid,
        GroupInfo {
            id: gid,
            name: "study".into(),
            members: vec![me, member],
            creator: me,
        },
    );

    // Known group, both peer and me are members.
    assert!(group_allows(&st, &gid, &member, &me));
    // Unknown group id (e.g. a fabricated GroupId nobody ever created).
    assert!(!group_allows(&st, &unknown_gid, &member, &me));
    // Known group, but the sending peer is not a member.
    assert!(!group_allows(&st, &gid, &stranger, &me));
    // Known group, peer is a member, but *we* are not.
    assert!(!group_allows(&st, &gid, &member, &stranger));
}

#[test]
fn remove_contact_purges_state_and_allows_rehandshake() {
    let mut net = Net::new();
    let alice = net.start(151);
    let bob = net.start(152);
    let (old_generation, _) = net.connect(alice, bob);
    net.send_text(alice, bob, "before removal");
    assert_eq!(net.node(alice).contacts().len(), 1);

    let acts = net.node(alice).remove_contact(bob);
    net.add(alice, acts);
    net.run();
    assert!(
        net.node(alice).contacts().is_empty(),
        "contact must be forgotten immediately"
    );
    assert!(net.node(alice).connected_peers().is_empty());
    assert!(net.bodies(alice, bob).is_empty());
    assert!(net.saved[&alice].iter().any(|a| a.starts_with("DeleteContact")));

    net.connect(alice, bob);
    net.send_text(alice, bob, "after removal");
    assert!(net.saw(bob, |e| received(e, "after removal")));

    // The re-handshake recreated the contact from scratch.
    let contacts = net.node(alice).contacts();
    assert_eq!(contacts.len(), 1, "re-handshake must recreate the contact");
    assert_eq!(contacts[0].peer, bob);

    // The old connection that closes now takes nothing with it.
    let acts = net.node(alice).state.connection_closed(bob, old_generation, 5);
    assert!(acts.is_empty());
    assert_eq!(net.node(alice).connected_peers(), vec![bob]);
}

#[test]
fn corrupted_convo_surfaces_in_startup_warnings() {
    // A vault that holds two conversations, by the bodies of their texts.
    let mut table: BTreeMap<String, Vec<u8>> = BTreeMap::new();
    let write = |table: &mut BTreeMap<String, Vec<u8>>, w: VaultWrite| {
        match w {
            VaultWrite::Put { name, bytes } => table.insert(name, bytes),
            VaultWrite::Remove { name } => table.remove(&name),
        };
    };
    let store = Store::open(VaultKey::from([5u8; 32]));
    let (engine, writes) = Engine::open(store, Ok(None), Ok(None)).unwrap();
    for w in writes {
        write(&mut table, w);
    }
    let peer: PeerKey = [201u8; 32];
    let healthy: PeerKey = [7u8; 32];
    let mut alice = Node::new(engine.id_bytes(), MessagingAccount::new());
    for p in [peer, healthy] {
        alice.send_text(p, "hi", 1);
        let json = serde_json::to_vec(&alice.conversation_bodies(&p)).unwrap();
        write(&mut table, engine.save_convo(&p, &json));
    }

    // Reseal one of them under a different vault key.
    let other = Store::open(VaultKey::from([77u8; 32]));
    let name = convo_name(&peer);
    write(&mut table, other.put_secret(&name, b"junk"));
    let junk = table[&name].clone();

    // Load the vault.
    let entries: Vec<(String, Vec<u8>)> =
        table.range("convo/".to_string()..).map(|(k, v)| (k.clone(), v.clone())).collect();
    let decoded = engine
        .store()
        .list_secrets("convo/", entries)
        .into_iter()
        .map(|(k, v)| {
            let v = v.map(|b| {
                serde_json::from_slice::<Vec<String>>(&b).map_err(|e| e.to_string())
            });
            (k, v)
        })
        .collect();
    let loaded = load_prefix(decoded);
    assert_eq!(loaded.quarantine, vec![name.clone()]);
    for n in &loaded.quarantine {
        let raw = table.get(n).cloned();
        for w in engine.store().quarantine(n, raw.as_deref()) {
            write(&mut table, w);
        }
    }
    assert!(!table.contains_key(&name));
    assert_eq!(table[&format!("corrupt/{name}")], junk);
    let convos: Vec<(PeerKey, Snapshot)> = load_convos(loaded.items)
        .into_iter()
        .map(|(p, bodies)| {
            let mut c = Conversation::new();
            for body in bodies {
                c.create_text(engine.id_bytes(), 1, &body);
            }
            (p, c.snapshot())
        })
        .collect();
    let (node, acts) = Node::load(
        engine.id_bytes(),
        MessagingAccount::new(),
        &Vec::new(),
        &convos,
        &Vec::new(),
        &Vec::new(),
        loaded.warnings,
    );
    assert_eq!(
        node.startup_warnings().len(),
        1,
        "one corrupted convo blob must surface as exactly one startup warning"
    );
    let warning = format!("unreadable vault entry {name} quarantined: decryption failed");
    assert_eq!(node.startup_warnings()[0], warning);
    assert_eq!(acts.len(), 1);
    assert!(matches!(&acts[0],
        Action::Emit(EngineEvent::StorageWarning { detail }) if *detail == warning));
    // The other conversation is there.
    assert_eq!(node.conversation_bodies(&healthy), vec!["hi"]);
    assert!(node.conversation_bodies(&peer).is_empty());
}

#[test]
fn a_text_is_sent_only_if_it_was_written() {
    assert!(was_sent(SendAttempt::Written(true)));
    assert!(!was_sent(SendAttempt::Written(false)));
    assert!(!was_sent(SendAttempt::Unencrypted));
    assert!(!was_sent(SendAttempt::Unconnected));
    let mut c = Conversation::default();
    let m = c.create_text([1u8; 32], 2, "hi");
    assert!(matches!(chat_payload(&m), Payload::Chat(sent) if sent == m));
    let copy = c.clone();
    c.create_text([1u8; 32], 3, "more");
    assert_eq!(copy.messages_ordered().len(), 1);
    assert_eq!(c.messages_ordered().len(), 2);
}

#[test]
fn competing_openings_settle_on_the_session_of_the_smaller_id() {
    let mut net = Net::new();
    let x = net.start(3);
    let y = net.start(4);
    let (low, high) = if x < y { (x, y) } else { (y, x) };
    let bundle_low = net.node(low).messaging.prekey_bundle();
    let bundle_high = net.node(high).messaging.prekey_bundle();
    net.node(low).state.register(&low, high, bundle_high, 1);
    net.node(high).state.register(&high, low, bundle_low, 1);

    // Both open a session before either hears of the other.
    let from_low = net.node(low).encrypt_for(high, b"low").unwrap();
    let from_high = net.node(high).encrypt_for(low, b"high").unwrap();
    let at_high = net.node(high).decrypt_payload(low, &from_low).unwrap();
    assert_eq!((at_high.plaintext.as_slice(), at_high.accepted), (&b"low"[..], true));
    let at_low = net.node(low).decrypt_payload(high, &from_high).unwrap();
    assert_eq!((at_low.plaintext.as_slice(), at_low.accepted), (&b"high"[..], true));

    // The side with the greater id now sends on the session of the other, so
    // that its next message opens nothing and is read on it.
    let next = net.node(high).encrypt_for(low, b"next").unwrap();
    assert!(!is_prekey(&next));
    let read = net.node(low).decrypt_payload(high, &next).unwrap();
    assert_eq!((read.plaintext.as_slice(), read.accepted), (&b"next"[..], false));
    let back = net.node(low).encrypt_for(high, b"back").unwrap();
    let read = net.node(high).decrypt_payload(low, &back).unwrap();
    assert_eq!((read.plaintext.as_slice(), read.accepted), (&b"back"[..], false));
    assert!(net.node(low).state.inbound_sessions.contains(&high));
    assert!(!net.node(high).state.inbound_sessions.contains(&low));
}

#[test]
fn strangers_cannot_write_to_or_read_a_group() {
    let mut net = Net::new();
    let alice = net.start(1);
    let bob = net.start(2);
    let eve = net.start(3);
    net.connect(alice, bob);
    net.connect(alice, eve);
    let (gid, acts) = net.node(alice).create_group("private".into(), &[bob]);
    net.add(alice, acts);
    let (m, acts) = net.node(alice).send_group_text(gid, "between us", 5).unwrap();
    net.add(alice, acts);
    net.run();

    let forged = Message { id: [9u8; 16], author: eve, ..m.clone() };
    let scope = SyncScope::Group(gid);
    let attempts = vec![
        Payload::GroupMessage { group: gid, message: forged.clone() },
        Payload::SyncHave { scope, ids: Vec::new() },
        Payload::SyncDelta { scope, messages: vec![forged.clone()], reactions: vec![], read: vec![] },
        // A list of members that says otherwise.
        Payload::GroupAnnounce(GroupInfo {
            id: gid,
            name: "mine now".into(),
            members: vec![alice, eve],
            creator: eve,
        }),
    ];
    for p in attempts {
        let acts = net.node(alice).handle_payload(eve, p, 6);
        assert!(acts.is_empty());
    }
    assert_eq!(net.node(alice).group_conversation(&gid), vec![m]);
    assert_eq!(net.node(alice).groups()[0].name, "private");

    // Nor can she make us members of what we are not, or make up a group.
    for p in [
        Payload::GroupInvite(GroupInfo {
            id: [7u8; 16],
            name: "x".into(),
            members: vec![eve],
            creator: eve,
        }),
        Payload::GroupMessage { group: [7u8; 16], message: forged },
    ] {
        assert!(net.node(alice).handle_payload(eve, p, 6).is_empty());
    }
    assert_eq!(net.node(alice).groups().len(), 1);
    assert!(net.node(alice).group_conversation(&[7u8; 16]).is_empty());
}

#[test]
fn discovery_dials_known_contacts_only() {
    let mut net = Net::new();
    let alice = net.start(1);
    let bob = net.start(2);
    let stranger = [9u8; 32];
    net.connect(alice, bob);
    net.stop(bob);

    let node = net.node(alice);
    let (dial, acts) = node.state.peer_discovered(&alice, bob);
    assert!(dial);
    assert!(matches!(&acts[0], Action::Emit(EngineEvent::PeerDiscovered(p)) if *p == bob));
    // Only once while it is visible.
    let (dial, acts) = node.state.peer_discovered(&alice, bob);
    assert!(!dial && acts.is_empty());
    let (dial, acts) = node.state.peer_discovered(&alice, stranger);
    assert!(!dial);
    assert_eq!(acts.len(), 1);
    let (dial, acts) = node.state.peer_discovered(&alice, alice);
    assert!(!dial && acts.is_empty());

    assert_eq!(node.nearby(), vec![stranger]);
    assert_eq!(node.discovered_peers().len(), 2);
    node.state.peer_expired(&stranger);
    assert!(node.nearby().is_empty());
}

#[test]
fn early_frames_wait_for_the_hello() {
    let mut h = Handshake::new();
    assert!(h.on_frame(Some(Wire::Typing)).is_none());
    assert!(h.on_frame(None).is_none());
    assert!(h.on_frame(Some(Wire::Presence { online: true })).is_none());
    let bundle = PreKeyBundle { identity_key: [1u8; 32], one_time_key: [2u8; 32] };
    assert_eq!(h.on_frame(Some(Wire::Hello { bundle })), Some(bundle));
    assert_eq!(h.early.len(), 2);
    assert!(matches!(h.early[0], Wire::Typing));
}

#[test]
fn only_one_side_opens_the_exchange() {
    let low = [1u8; 32];
    let high = [2u8; 32];
    let bundle = PreKeyBundle { identity_key: [3u8; 32], one_time_key: [4u8; 32] };
    let mut a = State::default();
    let mut b = State::default();
    let (gen_a, acts_a) = a.register(&low, high, bundle, 7);
    let (_, acts_b) = b.register(&high, low, bundle, 7);
    assert_eq!(gen_a, 0);
    assert!(matches!(acts_a.last(), Some(Action::PostConnect(p)) if *p == high));
    assert!(!acts_b.iter().any(|x| matches!(x, Action::PostConnect(_))));
    assert!(!a.pending_post_connect.contains(&high));
    assert!(b.pending_post_connect.contains(&low));
    // A newer connection has a newer generation.
    assert_eq!(a.register(&low, high, bundle, 8).0, 1);
    let c = a.contacts.get(&high).unwrap();
    assert_eq!((c.added_at, c.last_seen), (7, 8));
    assert_eq!(c.pinned_msg_key, Some([3u8; 32]));
}

#[test]
fn sessions_need_a_bundle() {
    let mut node = Node::new([1u8; 32], MessagingAccount::new());
    let peer = [2u8; 32];
    let e = node.encrypt_for(peer, b"x").unwrap_err();
    assert_eq!(e, SessionError::NoBundle);
    assert_eq!(
        e.send_message(),
        "no pre-key bundle for peer; handshake incomplete"
    );
    assert_eq!(node.decrypt_payload(peer, b"x").unwrap_err(), SessionError::NoBundle);
    node.handle_frame(
        peer,
        Wire::Hello {
            bundle: PreKeyBundle { identity_key: [5u8; 32], one_time_key: [6u8; 32] },
        },
    );
    assert_eq!(
        node.decrypt_payload(peer, b"x").unwrap_err(),
        SessionError::Ratchet(RatchetError::Malformed)
    );
    let outcome = node.handle_frame(peer, Wire::Message { ciphertext: vec![0, 1, 2] });
    assert!(outcome.plaintext.is_none() && outcome.actions.is_empty());
}

#[test]
fn file_offers_are_expected_and_heard() {
    let mut net = Net::new();
    let alice = net.start(5);
    let bob = net.start(6);
    net.connect(alice, bob);
    let meta = vartalaap::blobs::prepare(Some("cat.png"), Some("png"), [1u8; 32], 3);
    let (offer, acts) = net.node(alice).offer_file(bob, &meta, 9);
    net.add(alice, acts);
    assert!(net.send(alice, bob, offer));
    net.run();
    assert!(net.saw(bob, |e| {
        matches!(e, EngineEvent::MessageReceived { message, .. }
            if matches!(&message.kind, MessageKind::File(f) if f.mime == "image/png"))
    }));
    let pending = net.node(bob).state.pending_files.get(&meta.transfer_id).unwrap();
    assert_eq!(pending.key, meta.key);
    assert_eq!(pending.name, "cat.png");
}

#[test]
fn contacts_are_listed_for_people() {
    let mut net = Net::new();
    let alice = net.start(11);
    let bob = net.start(12);
    net.connect(alice, bob);
    net.send_text(bob, alice, "hi");
    let list = net.node(alice).list_contacts();
    assert_eq!(list.len(), 1);
    assert_eq!(list[0].id, bob.iter().map(|b| format!("{b:02x}")).collect::<String>());
    let fingerprint = Identity::from_secret_bytes([12u8; 32]).public_id().fingerprint();
    assert_eq!(list[0].name, fingerprint[..8]);
    assert!(list[0].online);
    assert_eq!(list[0].unread, 1);
    assert!(!list[0].pin_pending);
    net.stop(bob);
    assert!(!net.node(alice).list_contacts()[0].online);
}

#[test]
fn a_closed_node_is_given_time_to_end() {
    assert_eq!(drain_step(0, 0), DrainStep::Done);
    assert_eq!(drain_step(2, 0), DrainStep::Wait(50));
    assert_eq!(drain_step(1, 39), DrainStep::Wait(50));
    assert_eq!(drain_step(1, 40), DrainStep::GiveUp);
    assert_eq!(drain_step(0, 40), DrainStep::Done);
}

#[test]
fn what_cannot_be_read_is_refused_for_its_reason() {
    let mut net = Net::new();
    let alice = net.start(1);
    let bob = net.start(2);
    // Without a bundle nothing can be accepted.
    assert_eq!(
        net.node(alice).decrypt_payload(bob, &[0, 1]),
        Err(SessionError::NoBundle)
    );
    let bundle = net.node(bob).messaging.prekey_bundle();
    net.node(alice).state.register(&alice, bob, bundle, 1);
    let refused = |r: RatchetError| Err(SessionError::Ratchet(r));
    assert_eq!(
        net.node(alice).decrypt_payload(bob, &[0, 1]),
        refused(RatchetError::Malformed)
    );

    // A message of a session that Alice has no part in.
    let mut carol = MessagingAccount::new();
    let theirs = carol.prekey_bundle();
    let dave = MessagingAccount::new();
    let (mut d, opening) = RatchetSession::initiate(&dave, &theirs, b"hi").unwrap();
    let (mut c, _) = RatchetSession::accept(&mut carol, dave.identity_key(), &opening).unwrap();
    let normal = c.encrypt(b"ho").unwrap();
    assert!(d.decrypt(&normal).is_ok());
    assert_eq!(
        net.node(alice).decrypt_payload(bob, &normal),
        refused(RatchetError::NotPreKey)
    );
    assert!(matches!(
        net.node(alice).decrypt_payload(bob, &opening),
        Err(SessionError::Ratchet(RatchetError::SessionCreation(_)))
    ));

    // With a session that Alice sends on.
    net.node(alice).encrypt_for(bob, b"first").unwrap();
    let second = net.node(alice).encrypt_for(bob, b"second").unwrap();
    assert!(is_prekey(&second), "not answered yet");
    assert!(matches!(
        net.node(alice).decrypt_payload(bob, &normal),
        Err(SessionError::Ratchet(RatchetError::Decryption(_)))
    ));
    assert_eq!(
        net.node(alice).decrypt_payload(bob, &[9]),
        refused(RatchetError::Malformed)
    );
    assert!(matches!(
        net.node(alice).decrypt_payload(bob, &opening),
        Err(SessionError::Ratchet(RatchetError::SessionCreation(_)))
    ));
}
