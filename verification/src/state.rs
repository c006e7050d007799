//! Everything that a running node knows.

use crate::contact::Contact;
#[allow(unused_imports)]
use crate::contact::ContactModel;
use crate::conversation::Conversation;
#[allow(unused_imports)]
use crate::conversation::ConversationModel;
use crate::keyed::{ByteMap, ByteSet};
use crate::bytes::same_key;
use crate::protocol::{GroupId, GroupInfo, PeerKey, PendingFile, TransferId};
#[allow(unused_imports)]
use crate::protocol::GroupModel;
use crate::ratchet::{PreKeyBundle, RatchetSession};
use crate::sync::{Message, MessageId};
use vstd::prelude::*;

verus! {

/// The models of the values of a map.
pub open spec fn views<const N: usize, V: View>(m: Map<[u8; N], V>) -> Map<[u8; N], V::V> {
    m.map_values(|v: V| v@)
}

/// The models of a map after an insertion.
pub broadcast proof fn views_insert<const N: usize, V: View>(m: Map<[u8; N], V>, k: [u8; N], v: V)
    ensures
        #[trigger] views(m.insert(k, v)) == views(m).insert(k, v@),
{
    assert(views(m.insert(k, v)) =~= views(m).insert(k, v@));
}

/// The models of a map after a removal.
pub broadcast proof fn views_remove<const N: usize, V: View>(m: Map<[u8; N], V>, k: [u8; N])
    ensures
        #[trigger] views(m.remove(k)) == views(m).remove(k),
{
    assert(views(m.remove(k)) =~= views(m).remove(k));
}

/// What a node knows, in memory.
pub struct State {
    pub conversations: ByteMap<32, Conversation>,
    /// The ratchet session with each peer that we send on.
    pub sessions: ByteMap<32, RatchetSession>,
    /// A session that the peer opened and that we do not send on, kept to read
    /// what the peer sends on it.
    pub inbound_sessions: ByteMap<32, RatchetSession>,
    /// The latest bundle of each peer.
    pub bundles: ByteMap<32, PreKeyBundle>,
    /// The generation of the live connection to each peer, so that an old
    /// connection that closes does not take a newer one with it.
    pub conns: ByteMap<32, u64>,
    /// The generation of the next connection.
    pub next_gen: u64,
    /// The peers that are visible on the network.
    pub discovered: ByteSet<32>,
    /// The files that were offered and not yet received.
    pub pending_files: ByteMap<16, PendingFile>,
    /// The groups that we belong to.
    pub groups: ByteMap<16, GroupInfo>,
    /// The conversation of each group.
    pub group_convos: ByteMap<16, Conversation>,
    /// The peers with whom at least one handshake was completed.
    pub contacts: ByteMap<32, Contact>,
    /// The peers for whom the exchange after the connection waits for a
    /// session.
    pub pending_post_connect: ByteSet<32>,
    /// The message ids that each peer has confirmed to hold.
    pub peer_have: ByteMap<32, ByteSet<16>>,
    /// Our own messages that could not be sent and are not confirmed yet.
    pub queued: ByteMap<32, ByteSet<16>>,
    /// The warnings from loading the vault.
    pub startup_warnings: Vec<String>,
}

/// What a node knows, as a mathematical value.
#[verifier::ext_equal]
pub ghost struct StateModel {
    pub conversations: Map<PeerKey, ConversationModel>,
    pub sessions: Map<PeerKey, RatchetSession>,
    pub inbound_sessions: Map<PeerKey, RatchetSession>,
    pub bundles: Map<PeerKey, PreKeyBundle>,
    pub conns: Map<PeerKey, u64>,
    pub next_gen: u64,
    pub discovered: Set<PeerKey>,
    pub pending_files: Map<TransferId, PendingFile>,
    pub groups: Map<GroupId, GroupModel>,
    pub group_convos: Map<GroupId, ConversationModel>,
    pub contacts: Map<PeerKey, ContactModel>,
    pub pending_post_connect: Set<PeerKey>,
    pub peer_have: Map<PeerKey, Set<MessageId>>,
    pub queued: Map<PeerKey, Set<MessageId>>,
    pub startup_warnings: Seq<String>,
}

impl View for State {
    type V = StateModel;

    open spec fn view(&self) -> StateModel {
        StateModel {
            conversations: views(self.conversations@),
            sessions: self.sessions@,
            inbound_sessions: self.inbound_sessions@,
            bundles: self.bundles@,
            conns: self.conns@,
            next_gen: self.next_gen,
            discovered: self.discovered@,
            pending_files: self.pending_files@,
            groups: views(self.groups@),
            group_convos: views(self.group_convos@),
            contacts: views(self.contacts@),
            pending_post_connect: self.pending_post_connect@,
            peer_have: views(self.peer_have@),
            queued: views(self.queued@),
            startup_warnings: self.startup_warnings@,
        }
    }
}

impl StateModel {
    /// What a node knows that has just started.
    pub open spec fn empty() -> Self {
        StateModel {
            conversations: Map::empty(),
            sessions: Map::empty(),
            inbound_sessions: Map::empty(),
            bundles: Map::empty(),
            conns: Map::empty(),
            next_gen: 0,
            discovered: Set::empty(),
            pending_files: Map::empty(),
            groups: Map::empty(),
            group_convos: Map::empty(),
            contacts: Map::empty(),
            pending_post_connect: Set::empty(),
            peer_have: Map::empty(),
            queued: Map::empty(),
            startup_warnings: Seq::empty(),
        }
    }

    /// The conversation with a peer; empty where there is none.
    pub open spec fn convo(self, peer: PeerKey) -> ConversationModel {
        convo_at(self.conversations, peer)
    }

    /// The conversation of a group; empty where there is none.
    pub open spec fn group_convo(self, gid: GroupId) -> ConversationModel {
        convo_at(self.group_convos, gid)
    }

    /// The message ids that a peer has confirmed to hold.
    pub open spec fn have_of(self, peer: PeerKey) -> Set<MessageId> {
        ids_at(self.peer_have, peer)
    }

    /// Our own messages that are queued for a peer.
    pub open spec fn queued_for(self, peer: PeerKey) -> Set<MessageId> {
        ids_at(self.queued, peer)
    }

    /// Both peers are members of a group that we know.
    pub open spec fn group_allows(self, gid: GroupId, peer: PeerKey, me: PeerKey) -> bool {
        &&& self.groups.contains_key(gid)
        &&& self.groups[gid].members.contains(peer)
        &&& self.groups[gid].members.contains(me)
    }

    /// The peer has confirmed that it holds our message: it listed the id, or
    /// has read that far.
    pub open spec fn delivered(self, peer: PeerKey, m: Message) -> bool {
        ||| self.have_of(peer).contains(m.id)
        ||| self.conversations.contains_key(peer) && self.conversations[peer].watermark(peer)
            >= m.lamport
    }

    /// The same, with another conversation with a peer.
    pub open spec fn with_convo(self, peer: PeerKey, c: ConversationModel) -> Self {
        StateModel { conversations: self.conversations.insert(peer, c), ..self }
    }

    /// The same, with another conversation of a group.
    pub open spec fn with_group_convo(self, gid: GroupId, c: ConversationModel) -> Self {
        StateModel { group_convos: self.group_convos.insert(gid, c), ..self }
    }

    /// The same, with a contact changed where there is one.
    pub open spec fn with_contact(self, peer: PeerKey, c: ContactModel) -> Self {
        StateModel { contacts: self.contacts.insert(peer, c), ..self }
    }

    /// The same, with a contact seen just now where there is one.
    pub open spec fn seen(self, peer: PeerKey, now: u64) -> Self {
        if self.contacts.contains_key(peer) {
            self.with_contact(peer, ContactModel { last_seen: now, ..self.contacts[peer] })
        } else {
            self
        }
    }
}

/// The conversation under a key; empty where there is none.
pub open spec fn convo_at<const N: usize>(
    m: Map<[u8; N], ConversationModel>,
    k: [u8; N],
) -> ConversationModel {
    if m.contains_key(k) {
        m[k]
    } else {
        ConversationModel::empty()
    }
}

/// The ids under a key; none where there is no entry.
pub open spec fn ids_at(m: Map<PeerKey, Set<MessageId>>, k: PeerKey) -> Set<MessageId> {
    if m.contains_key(k) {
        m[k]
    } else {
        Set::empty()
    }
}

impl Default for State {
    fn default() -> (r: Self)
        ensures
            r@ == StateModel::empty(),
    {
        let r = State {
            conversations: ByteMap::new(),
            sessions: ByteMap::new(),
            inbound_sessions: ByteMap::new(),
            bundles: ByteMap::new(),
            conns: ByteMap::new(),
            next_gen: 0,
            discovered: ByteSet::new(),
            pending_files: ByteMap::new(),
            groups: ByteMap::new(),
            group_convos: ByteMap::new(),
            contacts: ByteMap::new(),
            pending_post_connect: ByteSet::new(),
            peer_have: ByteMap::new(),
            queued: ByteMap::new(),
            startup_warnings: Vec::new(),
        };
        assert(r@ =~= StateModel::empty());
        r
    }
}

/// Takes the conversation under a key out of the map, or starts an empty one.
pub fn take_convo<const N: usize>(m: &mut ByteMap<N, Conversation>, k: &[u8; N]) -> (r:
    Conversation)
    ensures
        final(m)@ == old(m)@.remove(*k),
        r@ == convo_at(views(old(m)@), *k),
{
    match m.remove(k) {
        Some(c) => c,
        None => Conversation::new(),
    }
}

/// Takes the ids under a key out of the map, or starts an empty set.
pub fn take_ids(m: &mut ByteMap<32, ByteSet<16>>, k: &PeerKey) -> (r: ByteSet<16>)
    ensures
        final(m)@ == old(m)@.remove(*k),
        r@ == ids_at(views(old(m)@), *k),
{
    match m.remove(k) {
        Some(c) => c,
        None => ByteSet::new(),
    }
}

/// Whether a list of keys holds a key.
pub fn holds<const N: usize>(keys: &Vec<[u8; N]>, k: &[u8; N]) -> (r: bool)
    ensures
        r == keys@.contains(*k),
{
    let mut i: usize = 0;
    while i < keys.len()
        invariant
            i <= keys.len(),
            forall|j: int| 0 <= j < i ==> keys@[j] != *k,
        decreases keys.len() - i,
    {
        if same_key(&keys[i], k) {
            return true;
        }
        i = i + 1;
    }
    false
}

/// Membership gate for everything about a group: both peers are members of a
/// group that we know.
pub fn group_allows(st: &State, gid: &GroupId, peer: &PeerKey, me: &PeerKey) -> (r: bool)
    ensures
        r == st@.group_allows(*gid, *peer, *me),
{
    match st.groups.get(gid) {
        Some(g) => holds(&g.members, peer) && holds(&g.members, me),
        None => false,
    }
}

/// Membership gate for news of a group: the peer who tells us of it and we are
/// both among its members.
pub fn group_info_admits(info: &GroupInfo, peer: &PeerKey, me: &PeerKey) -> (r: bool)
    ensures
        r == (info@.members.contains(*peer) && info@.members.contains(*me)),
{
    holds(&info.members, peer) && holds(&info.members, me)
}

/// Whether the peer has confirmed that it holds our message.
pub fn delivered(st: &State, peer: &PeerKey, m: &Message) -> (r: bool)
    ensures
        r == st@.delivered(*peer, *m),
{
    if let Some(h) = st.peer_have.get(peer) {
        if h.contains(&m.id) {
            return true;
        }
    }
    match st.conversations.get(peer) {
        Some(c) => c.read_watermark(peer) >= m.lamport,
        None => false,
    }
}

} // verus!
