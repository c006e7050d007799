//! What the user interface is told, and what it asks for: plain values with
//! ids as text.

use crate::bytes::{same_key, same_text};
use crate::contact::Contact;
#[allow(unused_imports)]
use crate::contact::ContactModel;
use crate::engine::CoreError;
use crate::hexid::{hexgroup, hexkey, parse_group, parse_key};
#[allow(unused_imports)]
use crate::hexid::{hex_error, hex_text, is_hex, unhex};
use crate::identity::VartalaapId;
#[allow(unused_imports)]
use crate::identity::{base58, is_public_key, sha256};
#[allow(unused_imports)]
use crate::keyed::in_order;
use crate::node::Node;
#[allow(unused_imports)]
use crate::order::map_step;
#[allow(unused_imports)]
use crate::persist::texts;
use crate::protocol::{DeliveryStatus, EngineEvent, GroupId, GroupInfo, PeerKey, SyncScope};
#[allow(unused_imports)]
use crate::protocol::EventModel;
#[allow(unused_imports)]
use crate::queries::unread_count;
#[allow(unused_imports)]
use crate::state::StateModel;
use crate::sync::{Message, MessageKind};
use crate::transfer::blob_dest;
#[allow(unused_imports)]
use crate::transfer::blob_name;
use vstd::prelude::*;

verus! {

/// The fewest characters of the passphrase of a new vault. The passphrases of
/// vaults that are there are not judged.
pub const MIN_PASSPHRASE_LEN: usize = 8;

/// Whether a passphrase will do. Only the one of a new vault is judged.
pub fn check_passphrase(vault_exists: bool, passphrase: &str) -> (r: Result<(), String>)
    ensures
        if !vault_exists && passphrase@.len() < MIN_PASSPHRASE_LEN {
            r matches Err(e) && e@ == "passphrase must be at least 8 characters"@
        } else {
            r is Ok
        },
{
    if !vault_exists && passphrase.unicode_len() < MIN_PASSPHRASE_LEN {
        Err("passphrase must be at least 8 characters".to_owned())
    } else {
        Ok(())
    }
}

/// What the user is told when the vault could not be unlocked. A wrong
/// passphrase, which they can mend, is named plainly.
pub fn unlock_error(error: &CoreError) -> (r: String)
    ensures
        r@ == match *error {
            CoreError::WrongPassphrase => "Wrong passphrase."@,
            e => e.text(),
        },
{
    match error {
        CoreError::WrongPassphrase => "Wrong passphrase.".to_owned(),
        e => e.message(),
    }
}

/// A delivery status as text.
pub open spec fn status_text(s: DeliveryStatus) -> Seq<char> {
    match s {
        DeliveryStatus::Queued => "queued"@,
        DeliveryStatus::Sent => "sent"@,
        DeliveryStatus::Delivered => "delivered"@,
    }
}

/// A delivery status as text.
pub fn status_str(s: DeliveryStatus) -> (r: &'static str)
    ensures
        r@ == status_text(s),
{
    match s {
        DeliveryStatus::Queued => "queued",
        DeliveryStatus::Sent => "sent",
        DeliveryStatus::Delivered => "delivered",
    }
}

/// Who we are.
#[derive(Debug, PartialEq, Eq)]
pub struct WhoAmI {
    pub id: String,
    pub fingerprint: String,
    pub display_name: String,
}

/// Who we are; without a vault there is no fingerprint.
pub fn whoami_of(id: &PeerKey, fingerprint: Option<String>, display_name: String) -> (r: WhoAmI)
    ensures
        r.id@ == hex_text(id@),
        r.fingerprint@ == match fingerprint {
            Some(f) => f@,
            None => Seq::empty(),
        },
        r.display_name == display_name,
{
    WhoAmI {
        id: hexkey(id),
        fingerprint: match fingerprint {
            Some(f) => f,
            None => String::new(),
        },
        display_name,
    }
}

/// A file in a message.
#[derive(Debug, PartialEq, Eq)]
pub struct FileDto {
    pub name: String,
    pub size: u64,
    pub mime: String,
    pub transfer_id: String,
    /// Where the file is, if it was received.
    pub received_path: Option<String>,
}

/// A message.
#[derive(Debug, PartialEq, Eq)]
pub struct MessageDto {
    pub id: String,
    pub author: String,
    pub body: String,
    pub sent_at: u64,
    pub mine: bool,
    pub file: Option<FileDto>,
    pub status: Option<String>,
}

/// The name under which the file of a message is looked for. Only the receiver
/// looks for a file; the sender has the original.
pub fn received_name(m: &Message, me: &PeerKey) -> (r: Option<String>)
    ensures
        match m.kind {
            MessageKind::File(f) if m.author != *me => r matches Some(name) && name@ == blob_name(
                f.transfer_id,
                f.name@,
            ),
            _ => r is None,
        },
{
    match &m.kind {
        MessageKind::File(f) => if same_key(&m.author, me) {
            None
        } else {
            Some(blob_dest(&f.transfer_id, f.name.as_str()))
        },
        MessageKind::Text => None,
    }
}

/// A message for the user interface, with the place of its file, if it was
/// received.
pub fn message_dto(
    m: Message,
    me: &PeerKey,
    status: Option<DeliveryStatus>,
    received_path: Option<String>,
) -> (r: MessageDto)
    ensures
        r.id@ == hex_text(m.id@),
        r.author@ == hex_text(m.author@),
        r.body == m.body,
        r.sent_at == m.sent_at,
        r.mine == (m.author == *me),
        match m.kind {
            MessageKind::File(f) => {
                &&& r.file matches Some(dto)
                &&& dto.name == f.name
                &&& dto.size == f.size
                &&& dto.mime == f.mime
                &&& dto.transfer_id@ == hex_text(f.transfer_id@)
                &&& dto.received_path == if m.author == *me {
                    None
                } else {
                    received_path
                }
            },
            MessageKind::Text => r.file is None,
        },
        match status {
            Some(s) => r.status matches Some(t) && t@ == status_text(s),
            None => r.status is None,
        },
{
    let mine = same_key(&m.author, me);
    let file = match m.kind {
        MessageKind::File(f) => Some(
            FileDto {
                name: f.name,
                size: f.size,
                mime: f.mime,
                transfer_id: hexgroup(&f.transfer_id),
                received_path: if mine {
                    None
                } else {
                    received_path
                },
            },
        ),
        MessageKind::Text => None,
    };
    MessageDto {
        id: hexgroup(&m.id),
        author: hexkey(&m.author),
        body: m.body,
        sent_at: m.sent_at,
        mine,
        file,
        status: match status {
            Some(s) => Some(status_str(s).to_owned()),
            None => None,
        },
    }
}

/// A group.
#[derive(Debug, PartialEq, Eq)]
pub struct GroupDto {
    pub id: String,
    pub name: String,
    pub members: Vec<String>,
    pub creator: String,
}

/// The id of a peer as text.
pub open spec fn key_text() -> spec_fn(PeerKey) -> Seq<char> {
    |k: PeerKey| hex_text(k@)
}

/// A list of peers as texts.
pub fn hexkeys(keys: &Vec<PeerKey>) -> (r: Vec<String>)
    ensures
        texts(r@) == keys@.map_values(key_text()),
{
    let ghost f = key_text();
    let mut r: Vec<String> = Vec::new();
    let mut i: usize = 0;
    assert(texts(r@) =~= keys@.take(0).map_values(f));
    while i < keys.len()
        invariant
            i <= keys.len(),
            f == key_text(),
            texts(r@) == keys@.take(i as int).map_values(f),
        decreases keys.len() - i,
    {
        let ghost before = r@;
        let t = hexkey(&keys[i]);
        r.push(t);
        proof {
            map_step(keys@, i as int, f);
            assert(texts(r@) =~= texts(before).push(t@));
        }
        i = i + 1;
    }
    assert(keys@.take(i as int) =~= keys@);
    r
}

/// A group for the user interface.
pub fn group_dto(g: GroupInfo) -> (r: GroupDto)
    ensures
        r.id@ == hex_text(g.id@),
        r.name == g.name,
        texts(r.members@) == g.members@.map_values(key_text()),
        r.creator@ == hex_text(g.creator@),
{
    GroupDto {
        id: hexgroup(&g.id),
        members: hexkeys(&g.members),
        creator: hexkey(&g.creator),
        name: g.name,
    }
}

/// A contact.
#[derive(Debug, PartialEq, Eq)]
pub struct ContactDto {
    pub id: String,
    pub name: String,
    pub online: bool,
    pub last_seen: u64,
    pub unread: usize,
    pub pin_pending: bool,
}

/// A contact for the user interface, as a mathematical value.
pub ghost struct ContactDtoModel {
    pub id: Seq<char>,
    pub name: Seq<char>,
    pub online: bool,
    pub last_seen: u64,
    pub unread: nat,
    pub pin_pending: bool,
}

impl View for ContactDto {
    type V = ContactDtoModel;

    open spec fn view(&self) -> ContactDtoModel {
        ContactDtoModel {
            id: self.id@,
            name: self.name@,
            online: self.online,
            last_seen: self.last_seen,
            unread: self.unread as nat,
            pin_pending: self.pin_pending,
        }
    }
}

/// The first eight characters of a text.
pub open spec fn first_eight(s: Seq<char>) -> Seq<char> {
    if s.len() <= 8 {
        s
    } else {
        s.take(8)
    }
}

/// The first eight characters of a text.
fn first_eight_of(s: &str) -> (r: String)
    ensures
        r@ == first_eight(s@),
{
    if s.unicode_len() <= 8 {
        s.to_owned()
    } else {
        let t = s.substring_char(0, 8);
        assert(t@ =~= s@.take(8));
        t.to_owned()
    }
}

/// What a contact is called: its name, or the beginning of its fingerprint, or
/// that of its id where the id is no public key.
pub open spec fn contact_label(c: ContactModel) -> Seq<char> {
    match c.name() {
        Some(name) => name,
        None => first_eight(
            if is_public_key(c.peer@) {
                base58(sha256(c.peer@))
            } else {
                hex_text(c.peer@)
            },
        ),
    }
}

/// What a contact is called.
pub fn label_of(c: &Contact) -> (r: String)
    ensures
        r@ == contact_label(c@),
{
    match c.display_name() {
        Some(name) => name,
        None => match VartalaapId::from_bytes(c.peer) {
            Ok(id) => first_eight_of(id.fingerprint().as_str()),
            Err(_) => first_eight_of(hexkey(&c.peer).as_str()),
        },
    }
}

impl StateModel {
    /// A contact for the user interface.
    pub open spec fn contact_dto(self, me: PeerKey, c: ContactModel) -> ContactDtoModel {
        ContactDtoModel {
            id: hex_text(c.peer@),
            name: contact_label(c),
            online: self.conns.contains_key(c.peer),
            last_seen: c.last_seen,
            unread: unread_count(self.convo(c.peer), me),
            pin_pending: c.pending_msg_key is Some,
        }
    }

    /// The contact of a peer for the user interface.
    pub open spec fn contact_dto_at(self, me: PeerKey) -> spec_fn(PeerKey) -> ContactDtoModel {
        |p: PeerKey| self.contact_dto(me, self.contacts[p])
    }
}

/// The models of a list of contacts.
pub open spec fn contact_dtos(s: Seq<ContactDto>) -> Seq<ContactDtoModel> {
    s.map_values(|c: ContactDto| c@)
}

impl Node {
    /// The contacts for the user interface, in the order of their ids.
    pub fn list_contacts(&self) -> (r: Vec<ContactDto>)
        ensures
            contact_dtos(r@) == in_order(self.state@.contacts.dom()).map_values(
                self.state@.contact_dto_at(self.id),
            ),
    {
        let ghost ids = in_order(self.state@.contacts.dom());
        let ghost f = self.state@.contact_dto_at(self.id);
        let n = self.state.contacts.len();
        let mut r: Vec<ContactDto> = Vec::new();
        let mut i: usize = 0;
        assert(self.state@.contacts.dom() =~= self.state.contacts@.dom());
        assert(contact_dtos(r@) =~= ids.take(0).map_values(f));
        while i < n
            invariant
                i <= n,
                n == ids.len(),
                ids == in_order(self.state@.contacts.dom()),
                self.state@.contacts.dom() == self.state.contacts@.dom(),
                f == self.state@.contact_dto_at(self.id),
                contact_dtos(r@) == ids.take(i as int).map_values(f),
            decreases n - i,
        {
            let ghost before = r@;
            let c = self.state.contacts.value_at(i);
            let dto = ContactDto {
                id: hexkey(&c.peer),
                name: label_of(c),
                online: self.state.conns.contains(&c.peer),
                last_seen: c.last_seen,
                unread: self.unread_direct(&c.peer),
                pin_pending: c.pending_msg_key.is_some(),
            };
            r.push(dto);
            proof {
                map_step(ids, i as int, f);
                assert(contact_dtos(r@) =~= contact_dtos(before).push(dto@));
            }
            i = i + 1;
        }
        assert(ids.take(i as int) =~= ids);
        r
    }
}

/// The peers that a list of texts names, or the error of the first text that
/// names none.
pub fn parse_keys(members: &Vec<String>) -> (r: Result<Vec<PeerKey>, String>)
    ensures
        match r {
            Ok(keys) => {
                &&& keys@.len() == members@.len()
                &&& forall|i: int|
                    0 <= i < keys@.len() ==> names_peer((#[trigger] members@[i])@, keys@[i])
            },
            Err(e) => exists|i: int|
                0 <= i < members@.len() && refusal(#[trigger] members@[i]@, e@) && forall|j: int|
                    0 <= j < i ==> is_hex((#[trigger] members@[j])@) && unhex(members@[j]@).len()
                        == 32,
        },
{
    let mut keys: Vec<PeerKey> = Vec::new();
    let mut i: usize = 0;
    while i < members.len()
        invariant
            i <= members.len(),
            keys@.len() == i,
            forall|k: int| 0 <= k < i ==> names_peer((#[trigger] members@[k])@, keys@[k]),
        decreases members.len() - i,
    {
        match parse_key(members[i].as_str()) {
            Ok(k) => keys.push(k),
            Err(e) => {
                proof {
                    assert forall|j: int| 0 <= j < i implies is_hex((#[trigger] members@[j])@)
                        && unhex(members@[j]@).len() == 32 by {
                        assert(names_peer(members@[j]@, keys@[j]));
                    }
                    assert(refusal(members@[i as int]@, e@));
                }
                return Err(e);
            },
        }
        i = i + 1;
    }
    Ok(keys)
}

/// The text is the id of the peer.
pub open spec fn names_peer(s: Seq<char>, peer: PeerKey) -> bool {
    is_hex(s) && unhex(s) == peer@
}

/// The error on a text that is no peer id.
pub open spec fn refusal(s: Seq<char>, e: Seq<char>) -> bool {
    if is_hex(s) {
        unhex(s).len() != 32 && e == "invalid id length"@
    } else {
        e == hex_error(s)
    }
}

/// A conversation that is to be marked as read.
#[derive(Debug, Clone, Copy, PartialEq, Eq)]
pub enum ReadTarget {
    Peer(PeerKey),
    Group(GroupId),
}

/// Reads which conversation is to be marked as read.
pub fn read_target(kind: &str, id: &str) -> (r: Result<ReadTarget, String>)
    ensures
        if kind@ == "peer"@ {
            match r {
                Ok(ReadTarget::Peer(key)) => is_hex(id@) && unhex(id@) == key@,
                Ok(ReadTarget::Group(_)) => false,
                Err(e) => refusal(id@, e@),
            }
        } else if kind@ == "group"@ {
            match r {
                Ok(ReadTarget::Group(gid)) => is_hex(id@) && unhex(id@) == gid@,
                Ok(ReadTarget::Peer(_)) => false,
                Err(e) => if is_hex(id@) {
                    unhex(id@).len() != 16 && e@ == "invalid group id"@
                } else {
                    e@ == hex_error(id@)
                },
            }
        } else {
            r matches Err(e) && e@ == "kind must be 'peer' or 'group'"@
        },
{
    if same_text(kind, "peer") {
        match parse_key(id) {
            Ok(key) => Ok(ReadTarget::Peer(key)),
            Err(e) => Err(e),
        }
    } else if same_text(kind, "group") {
        match parse_group(id) {
            Ok(gid) => Ok(ReadTarget::Group(gid)),
            Err(e) => Err(e),
        }
    } else {
        Err("kind must be 'peer' or 'group'".to_owned())
    }
}

/// The value of a field of an event.
#[derive(Debug, PartialEq, Eq)]
pub enum UiValue {
    Text(String),
    Number(u64),
    Flag(bool),
}

/// The value of a field of an event, as a mathematical value.
pub ghost enum UiModel {
    Text(Seq<char>),
    Number(nat),
    Flag(bool),
}

impl View for UiValue {
    type V = UiModel;

    open spec fn view(&self) -> UiModel {
        match *self {
            UiValue::Text(s) => UiModel::Text(s@),
            UiValue::Number(n) => UiModel::Number(n as nat),
            UiValue::Flag(b) => UiModel::Flag(b),
        }
    }
}

/// A field of an event: its name and its value.
pub struct UiField {
    pub name: &'static str,
    pub value: UiValue,
}

impl View for UiField {
    type V = (Seq<char>, UiModel);

    open spec fn view(&self) -> (Seq<char>, UiModel) {
        (self.name@, self.value@)
    }
}

/// The models of a list of fields.
pub open spec fn field_models(s: Seq<UiField>) -> Seq<(Seq<char>, UiModel)> {
    s.map_values(|f: UiField| f@)
}

/// The fields of a message in an event.
pub open spec fn message_fields(me: PeerKey, m: Message) -> Seq<(Seq<char>, UiModel)> {
    seq![
        ("id"@, UiModel::Text(hex_text(m.id@))),
        ("author"@, UiModel::Text(hex_text(m.author@))),
        ("body"@, UiModel::Text(m.body@)),
        ("sent_at"@, UiModel::Number(m.sent_at as nat)),
        ("mine"@, UiModel::Flag(m.author == me)),
    ]
}

/// The fields of the event that the user interface gets.
pub open spec fn ui_event(me: PeerKey, event: EventModel) -> Seq<(Seq<char>, UiModel)> {
    match event {
        EventModel::PeerDiscovered(p) => seq![
            ("kind"@, UiModel::Text("peer_discovered"@)),
            ("id"@, UiModel::Text(hex_text(p@))),
        ],
        EventModel::PeerConnected(p) => seq![
            ("kind"@, UiModel::Text("peer_connected"@)),
            ("id"@, UiModel::Text(hex_text(p@))),
        ],
        EventModel::PeerDisconnected(p) => seq![
            ("kind"@, UiModel::Text("peer_disconnected"@)),
            ("id"@, UiModel::Text(hex_text(p@))),
        ],
        EventModel::MessageReceived { peer, message } => seq![
            ("kind"@, UiModel::Text("message"@)),
            ("peer"@, UiModel::Text(hex_text(peer@))),
        ] + message_fields(me, message),
        EventModel::Typing(p) => seq![
            ("kind"@, UiModel::Text("typing"@)),
            ("peer"@, UiModel::Text(hex_text(p@))),
        ],
        EventModel::PresenceChanged { peer, online } => seq![
            ("kind"@, UiModel::Text("presence"@)),
            ("peer"@, UiModel::Text(hex_text(peer@))),
            ("online"@, UiModel::Flag(online)),
        ],
        EventModel::ReadReceipt { peer, up_to } => seq![
            ("kind"@, UiModel::Text("read"@)),
            ("peer"@, UiModel::Text(hex_text(peer@))),
            ("up_to"@, UiModel::Number(up_to as nat)),
        ],
        EventModel::FileReceived { peer, transfer_id, name, path } => seq![
            ("kind"@, UiModel::Text("file_received"@)),
            ("peer"@, UiModel::Text(hex_text(peer@))),
            ("transfer_id"@, UiModel::Text(hex_text(transfer_id@))),
            ("name"@, UiModel::Text(name)),
            ("path"@, UiModel::Text(path)),
        ],
        EventModel::FileFailed { peer, transfer_id, name, reason } => seq![
            ("kind"@, UiModel::Text("file_failed"@)),
            ("peer"@, UiModel::Text(hex_text(peer@))),
            ("transfer_id"@, UiModel::Text(hex_text(transfer_id@))),
            ("name"@, UiModel::Text(name)),
            ("reason"@, UiModel::Text(reason)),
        ],
        EventModel::GroupInvited(g) => seq![
            ("kind"@, UiModel::Text("group_invited"@)),
            ("group"@, UiModel::Text(hex_text(g@))),
        ],
        EventModel::GroupMessageReceived { group, message } => seq![
            ("kind"@, UiModel::Text("group_message"@)),
            ("group"@, UiModel::Text(hex_text(group@))),
        ] + message_fields(me, message),
        EventModel::StorageWarning { detail } => seq![
            ("kind"@, UiModel::Text("storage_warning"@)),
            ("detail"@, UiModel::Text(detail)),
        ],
        EventModel::ContactUpdated(p) => seq![
            ("kind"@, UiModel::Text("contact_updated"@)),
            ("id"@, UiModel::Text(hex_text(p@))),
        ],
        EventModel::PinWarning { peer, old_fingerprint, new_fingerprint } => seq![
            ("kind"@, UiModel::Text("pin_warning"@)),
            ("id"@, UiModel::Text(hex_text(peer@))),
            ("old"@, UiModel::Text(old_fingerprint)),
            ("new"@, UiModel::Text(new_fingerprint)),
        ],
        EventModel::HistorySynced { peer, scope, added } => seq![
            ("kind"@, UiModel::Text("history_synced"@)),
            (
                "scope"@,
                UiModel::Text(
                    match scope {
                        SyncScope::Direct => "peer"@,
                        SyncScope::Group(_) => "group"@,
                    },
                ),
            ),
            (
                "id"@,
                UiModel::Text(
                    match scope {
                        SyncScope::Direct => hex_text(peer@),
                        SyncScope::Group(gid) => hex_text(gid@),
                    },
                ),
            ),
            ("added"@, UiModel::Number(added)),
        ],
        EventModel::MessageStatus { peer, id, status } => seq![
            ("kind"@, UiModel::Text("message_status"@)),
            ("peer"@, UiModel::Text(hex_text(peer@))),
            ("id"@, UiModel::Text(hex_text(id@))),
            ("status"@, UiModel::Text(status_text(status))),
        ],
    }
}

/// A field with a text.
fn text_field(name: &'static str, value: String) -> (r: UiField)
    ensures
        r@ == (name@, UiModel::Text(value@)),
{
    UiField { name, value: UiValue::Text(value) }
}

/// A field with a text that does not change.
fn word_field(name: &'static str, value: &str) -> (r: UiField)
    ensures
        r@ == (name@, UiModel::Text(value@)),
{
    UiField { name, value: UiValue::Text(value.to_owned()) }
}

/// A field with a peer.
fn key_field(name: &'static str, key: &PeerKey) -> (r: UiField)
    ensures
        r@ == (name@, UiModel::Text(hex_text(key@))),
{
    UiField { name, value: UiValue::Text(hexkey(key)) }
}

/// A field with an id of sixteen bytes.
fn id_field(name: &'static str, id: &[u8; 16]) -> (r: UiField)
    ensures
        r@ == (name@, UiModel::Text(hex_text(id@))),
{
    UiField { name, value: UiValue::Text(hexgroup(id)) }
}

/// A field with a number.
fn number_field(name: &'static str, value: u64) -> (r: UiField)
    ensures
        r@ == (name@, UiModel::Number(value as nat)),
{
    UiField { name, value: UiValue::Number(value) }
}

/// A field with a flag.
fn flag_field(name: &'static str, value: bool) -> (r: UiField)
    ensures
        r@ == (name@, UiModel::Flag(value)),
{
    UiField { name, value: UiValue::Flag(value) }
}

/// The fields of the event that the user interface gets.
#[verifier::rlimit(60)]
pub fn emit_event(me: &PeerKey, event: EngineEvent) -> (r: Vec<UiField>)
    ensures
        field_models(r@) == ui_event(*me, event@),
{
    let ghost model = event@;
    let mut r: Vec<UiField> = Vec::new();
    match event {
        EngineEvent::PeerDiscovered(p) => {
            r.push(word_field("kind", "peer_discovered"));
            r.push(key_field("id", &p));
        },
        EngineEvent::PeerConnected(p) => {
            r.push(word_field("kind", "peer_connected"));
            r.push(key_field("id", &p));
        },
        EngineEvent::PeerDisconnected(p) => {
            r.push(word_field("kind", "peer_disconnected"));
            r.push(key_field("id", &p));
        },
        EngineEvent::MessageReceived { peer, message } => {
            r.push(word_field("kind", "message"));
            r.push(key_field("peer", &peer));
            r.push(id_field("id", &message.id));
            r.push(key_field("author", &message.author));
            r.push(word_field("body", message.body.as_str()));
            r.push(number_field("sent_at", message.sent_at));
            r.push(flag_field("mine", same_key(&message.author, me)));
        },
        EngineEvent::Typing(p) => {
            r.push(word_field("kind", "typing"));
            r.push(key_field("peer", &p));
        },
        EngineEvent::PresenceChanged { peer, online } => {
            r.push(word_field("kind", "presence"));
            r.push(key_field("peer", &peer));
            r.push(flag_field("online", online));
        },
        EngineEvent::ReadReceipt { peer, up_to } => {
            r.push(word_field("kind", "read"));
            r.push(key_field("peer", &peer));
            r.push(number_field("up_to", up_to));
        },
        EngineEvent::FileReceived { peer, transfer_id, name, path } => {
            r.push(word_field("kind", "file_received"));
            r.push(key_field("peer", &peer));
            r.push(id_field("transfer_id", &transfer_id));
            r.push(text_field("name", name));
            r.push(text_field("path", path));
        },
        EngineEvent::FileFailed { peer, transfer_id, name, reason } => {
            r.push(word_field("kind", "file_failed"));
            r.push(key_field("peer", &peer));
            r.push(id_field("transfer_id", &transfer_id));
            r.push(text_field("name", name));
            r.push(text_field("reason", reason));
        },
        EngineEvent::GroupInvited(g) => {
            r.push(word_field("kind", "group_invited"));
            r.push(id_field("group", &g));
        },
        EngineEvent::GroupMessageReceived { group, message } => {
            r.push(word_field("kind", "group_message"));
            r.push(id_field("group", &group));
            r.push(id_field("id", &message.id));
            r.push(key_field("author", &message.author));
            r.push(word_field("body", message.body.as_str()));
            r.push(number_field("sent_at", message.sent_at));
            r.push(flag_field("mine", same_key(&message.author, me)));
        },
        EngineEvent::StorageWarning { detail } => {
            r.push(word_field("kind", "storage_warning"));
            r.push(text_field("detail", detail));
        },
        EngineEvent::ContactUpdated(p) => {
            r.push(word_field("kind", "contact_updated"));
            r.push(key_field("id", &p));
        },
        EngineEvent::PinWarning { peer, old_fingerprint, new_fingerprint } => {
            r.push(word_field("kind", "pin_warning"));
            r.push(key_field("id", &peer));
            r.push(text_field("old", old_fingerprint));
            r.push(text_field("new", new_fingerprint));
        },
        EngineEvent::HistorySynced { peer, scope, added } => {
            r.push(word_field("kind", "history_synced"));
            match scope {
                SyncScope::Direct => {
                    r.push(word_field("scope", "peer"));
                    r.push(key_field("id", &peer));
                },
                SyncScope::Group(gid) => {
                    r.push(word_field("scope", "group"));
                    r.push(id_field("id", &gid));
                },
            }
            r.push(number_field("added", added as u64));
        },
        EngineEvent::MessageStatus { peer, id, status } => {
            r.push(word_field("kind", "message_status"));
            r.push(key_field("peer", &peer));
            r.push(id_field("id", &id));
            r.push(word_field("status", status_str(status)));
        },
    }
    assert(field_models(r@) =~= ui_event(*me, model));
    r
}

/// A contact is shown under its name, or else under the beginning of what tells
/// it apart: at most eight characters.
pub proof fn labels_are_names_or_short(c: ContactModel)
    ensures
        c.name() is Some ==> contact_label(c) == c.name()->0,
        c.name() is None ==> {
            let whole = if is_public_key(c.peer@) {
                base58(sha256(c.peer@))
            } else {
                hex_text(c.peer@)
            };
            &&& contact_label(c).is_prefix_of(whole)
            &&& contact_label(c).len() <= 8
            &&& whole.len() >= 8 ==> contact_label(c).len() == 8
        },
{
}

/// What is shown of a contact is its own: its id can be read back from it, it is
/// online just while it has a connection, and what is unread of it is the number
/// of its messages after our own watermark.
pub proof fn contact_is_shown_as_it_is(s: StateModel, me: PeerKey, peer: PeerKey)
    requires
        s.contacts.contains_key(peer),
        s.contacts[peer].peer == peer,
        s.conversations.contains_key(peer),
        s.conversations[peer].wf(),
    ensures
        ({
            let dto = s.contact_dto_at(me)(peer);
            &&& names_peer(dto.id, peer)
            &&& dto.online <==> s.conns.contains_key(peer)
            &&& dto.last_seen == s.contacts[peer].last_seen
            &&& dto.pin_pending <==> s.contacts[peer].pending_msg_key is Some
            &&& dto.unread == crate::effects::unread_ids(s.conversations[peer], me).len()
        }),
{
    crate::hexid::hex_round_trip(peer@);
    crate::effects::unread_count_is_exact(s.conversations[peer], me);
}

/// A text is the id of one peer at most, and each peer has one.
pub proof fn ids_name_one_peer(s: Seq<char>, a: PeerKey, b: PeerKey)
    ensures
        names_peer(hex_text(a@), a),
        names_peer(s, a) && names_peer(s, b) ==> a == b,
        names_peer(s, a) ==> s.len() == 64,
{
    crate::hexid::hex_round_trip(a@);
    if names_peer(s, a) && names_peer(s, b) {
        assert(a =~= b);
    }
    if names_peer(s, a) {
        assert(unhex(s).len() == 32);
    }
}

/// Two events that the user interface is told in the same words are the same
/// event, as far as the user interface is told of events: of a message its id,
/// its author, its text and the time at which it was sent, and of a history that
/// was brought up to date whose it is.
pub proof fn events_are_told_apart(me: PeerKey, a: EventModel, b: EventModel)
    requires
        ui_event(me, a) == ui_event(me, b),
    ensures
        match (a, b) {
            (
                EventModel::MessageReceived { peer: p, message: m },
                EventModel::MessageReceived { peer: q, message: n },
            ) => p == q && same_to_the_eye(m, n),
            (
                EventModel::GroupMessageReceived { group: g, message: m },
                EventModel::GroupMessageReceived { group: h, message: n },
            ) => g == h && same_to_the_eye(m, n),
            (
                EventModel::HistorySynced { peer: p, scope: s, added: k },
                EventModel::HistorySynced { peer: q, scope: t, added: l },
            ) => s == t && k == l && (s is Direct ==> p == q),
            _ => a == b,
        },
{
    let x = ui_event(me, a);
    let y = ui_event(me, b);
    assert(x[0] == y[0]);
    kinds_differ(me, a, b);
    if x.len() > 1 {
        assert(x[1] == y[1]);
    }
    if x.len() > 2 {
        assert(x[2] == y[2]);
    }
    if x.len() > 3 {
        assert(x[3] == y[3]);
    }
    if x.len() > 4 {
        assert(x[4] == y[4]);
    }
    match (a, b) {
        (EventModel::PeerDiscovered(p), EventModel::PeerDiscovered(q)) => {
            same_hex(p, q);
        },
        (EventModel::PeerConnected(p), EventModel::PeerConnected(q)) => {
            same_hex(p, q);
        },
        (EventModel::PeerDisconnected(p), EventModel::PeerDisconnected(q)) => {
            same_hex(p, q);
        },
        (
            EventModel::MessageReceived { peer: p, message: m },
            EventModel::MessageReceived { peer: q, message: n },
        ) => {
            same_hex(p, q);
            message_fields_differ(me, m, n, x, y);
        },
        (EventModel::Typing(p), EventModel::Typing(q)) => {
            same_hex(p, q);
        },
        (
            EventModel::PresenceChanged { peer: p, online: o },
            EventModel::PresenceChanged { peer: q, online: r },
        ) => {
            same_hex(p, q);
        },
        (
            EventModel::ReadReceipt { peer: p, up_to: u },
            EventModel::ReadReceipt { peer: q, up_to: v },
        ) => {
            same_hex(p, q);
        },
        (
            EventModel::FileReceived { peer: p, transfer_id: s, name: f, path: d },
            EventModel::FileReceived { peer: q, transfer_id: t, name: g, path: e },
        ) => {
            same_hex(p, q);
            same_hex(s, t);
        },
        (
            EventModel::FileFailed { peer: p, transfer_id: s, name: f, reason: d },
            EventModel::FileFailed { peer: q, transfer_id: t, name: g, reason: e },
        ) => {
            same_hex(p, q);
            same_hex(s, t);
        },
        (EventModel::GroupInvited(g), EventModel::GroupInvited(h)) => {
            same_hex(g, h);
        },
        (
            EventModel::GroupMessageReceived { group: g, message: m },
            EventModel::GroupMessageReceived { group: h, message: n },
        ) => {
            same_hex(g, h);
            message_fields_differ(me, m, n, x, y);
        },
        (EventModel::StorageWarning { detail: d }, EventModel::StorageWarning { detail: e }) => {},
        (EventModel::ContactUpdated(p), EventModel::ContactUpdated(q)) => {
            same_hex(p, q);
        },
        (
            EventModel::PinWarning { peer: p, old_fingerprint: f, new_fingerprint: g },
            EventModel::PinWarning { peer: q, old_fingerprint: h, new_fingerprint: i },
        ) => {
            same_hex(p, q);
        },
        (
            EventModel::HistorySynced { peer: p, scope: s, added: k },
            EventModel::HistorySynced { peer: q, scope: t, added: l },
        ) => {
            reveal_strlit("peer");
            reveal_strlit("group");
            assert("peer"@.len() != "group"@.len());
            match (s, t) {
                (SyncScope::Direct, SyncScope::Direct) => {
                    same_hex(p, q);
                },
                (SyncScope::Group(g), SyncScope::Group(h)) => {
                    same_hex(g, h);
                },
                _ => {},
            }
        },
        (
            EventModel::MessageStatus { peer: p, id: i, status: s },
            EventModel::MessageStatus { peer: q, id: j, status: t },
        ) => {
            same_hex(p, q);
            same_hex(i, j);
            reveal_strlit("queued");
            reveal_strlit("sent");
            reveal_strlit("delivered");
            assert("queued"@.len() != "sent"@.len());
            assert("sent"@.len() != "delivered"@.len());
            assert("queued"@.len() != "delivered"@.len());
        },
        _ => {},
    }
}

/// What the user interface is told of the two messages is the same.
pub open spec fn same_to_the_eye(m: Message, n: Message) -> bool {
    &&& m.id == n.id
    &&& m.author == n.author
    &&& m.body@ == n.body@
    &&& m.sent_at == n.sent_at
}

/// The same text stands for the same id.
proof fn same_hex<const N: usize>(a: [u8; N], b: [u8; N])
    ensures
        hex_text(a@) == hex_text(b@) ==> a == b,
{
    if hex_text(a@) == hex_text(b@) {
        crate::hexid::hex_injective(a@, b@);
        assert(a =~= b);
    }
}

/// Two messages with the same fields look the same.
proof fn message_fields_differ(
    me: PeerKey,
    m: Message,
    n: Message,
    x: Seq<(Seq<char>, UiModel)>,
    y: Seq<(Seq<char>, UiModel)>,
)
    requires
        x == y,
        x.len() == 7,
        x.skip(2) =~= message_fields(me, m),
        y.skip(2) =~= message_fields(me, n),
    ensures
        same_to_the_eye(m, n),
{
    let f = message_fields(me, m);
    let g = message_fields(me, n);
    assert(f[0] == g[0]);
    assert(f[1] == g[1]);
    assert(f[2] == g[2]);
    assert(f[3] == g[3]);
    same_hex(m.id, n.id);
    same_hex(m.author, n.author);
}

/// The number of the kind of an event.
spec fn kind_number(e: EventModel) -> int {
    match e {
        EventModel::PeerDiscovered(_) => 0,
        EventModel::PeerConnected(_) => 1,
        EventModel::PeerDisconnected(_) => 2,
        EventModel::MessageReceived { .. } => 3,
        EventModel::Typing(_) => 4,
        EventModel::PresenceChanged { .. } => 5,
        EventModel::ReadReceipt { .. } => 6,
        EventModel::FileReceived { .. } => 7,
        EventModel::FileFailed { .. } => 8,
        EventModel::GroupInvited(_) => 9,
        EventModel::GroupMessageReceived { .. } => 10,
        EventModel::StorageWarning { .. } => 11,
        EventModel::ContactUpdated(_) => 12,
        EventModel::PinWarning { .. } => 13,
        EventModel::HistorySynced { .. } => 14,
        EventModel::MessageStatus { .. } => 15,
    }
}

/// The number of characters in the name of the kind of an event.
spec fn kind_length(n: int) -> int {
    if n == 0 {
        15
    } else if n == 1 {
        14
    } else if n == 2 {
        17
    } else if n == 3 {
        7
    } else if n == 4 {
        6
    } else if n == 5 {
        8
    } else if n == 6 {
        4
    } else if n == 7 {
        13
    } else if n == 8 {
        11
    } else if n == 9 {
        13
    } else if n == 10 {
        13
    } else if n == 11 {
        15
    } else if n == 12 {
        15
    } else if n == 13 {
        11
    } else if n == 14 {
        14
    } else {
        14
    }
}

/// The first character in the name of the kind of an event.
spec fn kind_initial(n: int) -> char {
    if n == 0 {
        'p'
    } else if n == 1 {
        'p'
    } else if n == 2 {
        'p'
    } else if n == 3 {
        'm'
    } else if n == 4 {
        't'
    } else if n == 5 {
        'p'
    } else if n == 6 {
        'r'
    } else if n == 7 {
        'f'
    } else if n == 8 {
        'f'
    } else if n == 9 {
        'g'
    } else if n == 10 {
        'g'
    } else if n == 11 {
        's'
    } else if n == 12 {
        'c'
    } else if n == 13 {
        'p'
    } else if n == 14 {
        'h'
    } else {
        'm'
    }
}

/// What the name of the kind of an event looks like.
proof fn kind_looks(me: PeerKey, e: EventModel)
    ensures
        ({
            let n = kind_number(e);
            let field = ui_event(me, e)[0].1;
            &&& field is Text
            &&& field->Text_0.len() == kind_length(n)
            &&& field->Text_0[0] == kind_initial(n)
            &&& n == 9 ==> field->Text_0[6] == 'i'
            &&& n == 10 ==> field->Text_0[6] == 'm'
        }),
{
    match e {
        EventModel::PeerDiscovered(_) => {
            reveal_strlit("peer_discovered");
        },
        EventModel::PeerConnected(_) => {
            reveal_strlit("peer_connected");
        },
        EventModel::PeerDisconnected(_) => {
            reveal_strlit("peer_disconnected");
        },
        EventModel::MessageReceived { .. } => {
            reveal_strlit("message");
        },
        EventModel::Typing(_) => {
            reveal_strlit("typing");
        },
        EventModel::PresenceChanged { .. } => {
            reveal_strlit("presence");
        },
        EventModel::ReadReceipt { .. } => {
            reveal_strlit("read");
        },
        EventModel::FileReceived { .. } => {
            reveal_strlit("file_received");
        },
        EventModel::FileFailed { .. } => {
            reveal_strlit("file_failed");
        },
        EventModel::GroupInvited(_) => {
            reveal_strlit("group_invited");
        },
        EventModel::GroupMessageReceived { .. } => {
            reveal_strlit("group_message");
        },
        EventModel::StorageWarning { .. } => {
            reveal_strlit("storage_warning");
        },
        EventModel::ContactUpdated(_) => {
            reveal_strlit("contact_updated");
        },
        EventModel::PinWarning { .. } => {
            reveal_strlit("pin_warning");
        },
        EventModel::HistorySynced { .. } => {
            reveal_strlit("history_synced");
        },
        EventModel::MessageStatus { .. } => {
            reveal_strlit("message_status");
        },
    }
}

/// Events of different kinds say so in their first field.
proof fn kinds_differ(me: PeerKey, a: EventModel, b: EventModel)
    requires
        ui_event(me, a)[0] == ui_event(me, b)[0],
    ensures
        kind_number(a) == kind_number(b),
{
    kind_looks(me, a);
    kind_looks(me, b);
}

/// Ids travel through text: the texts of peers are read back as the same peers,
/// in the same order.
pub proof fn ids_travel_through_text(
    keys: &Vec<PeerKey>,
    written: Vec<String>,
    read: Result<Vec<PeerKey>, String>,
)
    requires
        call_ensures(hexkeys, (keys,), written),
        call_ensures(parse_keys, (&written,), read),
    ensures
        written@.len() == keys@.len(),
        read is Ok,
        read->Ok_0@ == keys@,
{
    let names = texts(written@);
    assert(names.len() == keys@.len());
    assert forall|i: int| 0 <= i < keys@.len() implies names_peer(
        (#[trigger] written@[i])@,
        keys@[i],
    ) by {
        assert(names[i] == written@[i]@);
        ids_name_one_peer(written@[i]@, keys@[i], keys@[i]);
    }
    match read {
        Ok(found) => {
            assert forall|i: int| 0 <= i < keys@.len() implies found@[i] == keys@[i] by {
                ids_name_one_peer(written@[i]@, found@[i], keys@[i]);
            }
            assert(found@ =~= keys@);
        },
        Err(e) => {
            let i = choose|i: int| 0 <= i < written@.len() && refusal(#[trigger] written@[i]@, e@);
            assert(names_peer(written@[i]@, keys@[i]));
        },
    }
}

/// What a text names can be marked as read: the id of a peer or of a group is
/// read back as that peer or group.
pub proof fn read_targets_are_named(
    peer: PeerKey,
    gid: GroupId,
    peer_text: &str,
    group_text: &str,
    one: Result<ReadTarget, String>,
    other: Result<ReadTarget, String>,
)
    requires
        peer_text@ == hex_text(peer@),
        group_text@ == hex_text(gid@),
        call_ensures(read_target, ("peer", peer_text), one),
        call_ensures(read_target, ("group", group_text), other),
    ensures
        one == Ok::<ReadTarget, String>(ReadTarget::Peer(peer)),
        other == Ok::<ReadTarget, String>(ReadTarget::Group(gid)),
{
    crate::hexid::hex_round_trip(peer@);
    crate::hexid::hex_round_trip(gid@);
    reveal_strlit("peer");
    reveal_strlit("group");
    assert("peer"@.len() != "group"@.len());
    match one {
        Ok(ReadTarget::Peer(key)) => {
            assert(key =~= peer);
        },
        _ => {},
    }
    match other {
        Ok(ReadTarget::Group(found)) => {
            assert(found =~= gid);
        },
        _ => {},
    }
}

/// Every contact is shown once, as it is, and nobody else is.
pub proof fn every_contact_is_shown(node: &Node, r: Vec<ContactDto>)
    requires
        call_ensures(Node::list_contacts, (node,), r),
        node.state@.contacts.dom().finite(),
        forall|p: PeerKey| #[trigger]
            node.state@.contacts.contains_key(p) ==> node.state@.contacts[p].peer == p,
    ensures
        r@.len() == node.state@.contacts.len(),
        forall|p: PeerKey| #[trigger]
            node.state@.contacts.contains_key(p) ==> exists|i: int|
                0 <= i < r@.len() && names_peer((#[trigger] r@[i]).id@, p),
        forall|i: int, p: PeerKey|
            0 <= i < r@.len() && node.state@.contacts.contains_key(p) && #[trigger] names_peer(
                r@[i].id@,
                p,
            ) ==> {
                let c = node.state@.contacts[p];
                &&& r@[i].online <==> node.state@.conns.contains_key(p)
                &&& r@[i].last_seen == c.last_seen
                &&& r@[i].pin_pending <==> c.pending_msg_key is Some
                &&& c.name() is Some ==> r@[i].name@ == c.name()->0
            },
        forall|i: int, j: int|
            0 <= i < j < r@.len() ==> (#[trigger] r@[i]).id@ != (#[trigger] r@[j]).id@,
{
    let s = node.state@;
    let ids = in_order(s.contacts.dom());
    crate::convergence::in_order_exists(s.contacts.dom());
    crate::keyed::ascending_is_in_order(ids);
    let shown = contact_dtos(r@);
    assert(shown.len() == r@.len());
    assert forall|i: int| 0 <= i < r@.len() implies s.contacts.contains_key(ids[i]) && names_peer(
        (#[trigger] r@[i]).id@,
        ids[i],
    ) && r@[i]@ == s.contact_dto(node.id, s.contacts[ids[i]]) by {
        assert(shown[i] == r@[i]@);
        assert(ids.to_set().contains(ids[i]));
        crate::hexid::hex_round_trip(ids[i]@);
    }
    assert forall|i: int, p: PeerKey|
        0 <= i < r@.len() && s.contacts.contains_key(p) && #[trigger] names_peer(
            r@[i].id@,
            p,
        ) implies {
        let c = s.contacts[p];
        &&& r@[i].online <==> s.conns.contains_key(p)
        &&& r@[i].last_seen == c.last_seen
        &&& r@[i].pin_pending <==> c.pending_msg_key is Some
        &&& c.name() is Some ==> r@[i].name@ == c.name()->0
    } by {
        ids_name_one_peer(r@[i].id@, p, ids[i]);
        assert(r@[i]@ == s.contact_dto(node.id, s.contacts[p]));
    }
    assert forall|p: PeerKey| #[trigger] s.contacts.contains_key(p) implies exists|i: int|
        0 <= i < r@.len() && names_peer((#[trigger] r@[i]).id@, p) by {
        assert(ids.to_set().contains(p));
        let i = choose|i: int| 0 <= i < ids.len() && ids[i] == p;
        assert(names_peer(r@[i].id@, p));
    }
    assert forall|i: int, j: int| 0 <= i < j < r@.len() implies (#[trigger] r@[i]).id@ != (
    #[trigger] r@[j]).id@ by {
        if r@[i].id@ == r@[j].id@ {
            ids_name_one_peer(r@[i].id@, ids[i], ids[j]);
        }
    }
}

/// What is shown of a message is its own: its ids can be read back, it is marked
/// as ours just where we wrote it, and a file is shown with it just where it is
/// one.
pub proof fn message_is_shown_as_it_is(
    m: Message,
    me: &PeerKey,
    status: Option<DeliveryStatus>,
    path: Option<String>,
    r: MessageDto,
)
    requires
        call_ensures(message_dto, (m, me, status, path), r),
    ensures
        unhex(r.id@) == m.id@,
        unhex(r.author@) == m.author@,
        r.body == m.body,
        r.sent_at == m.sent_at,
        r.mine <==> m.author == *me,
        r.status is Some <==> status is Some,
        r.file is Some <==> m.kind is File,
        r.file is Some ==> {
            let f = m.kind->File_0;
            let dto = r.file->0;
            &&& dto.name == f.name
            &&& dto.size == f.size
            &&& dto.mime == f.mime
            &&& unhex(dto.transfer_id@) == f.transfer_id@
            &&& m.author == *me ==> dto.received_path is None
            &&& m.author != *me ==> dto.received_path == path
        },
{
    crate::hexid::hex_round_trip(m.id@);
    crate::hexid::hex_round_trip(m.author@);
    if m.kind is File {
        crate::hexid::hex_round_trip(m.kind->File_0.transfer_id@);
    }
}

/// A passphrase is refused only for a new vault, and only where it is shorter
/// than eight characters.
pub proof fn only_short_new_passphrases_are_refused(
    vault_exists: bool,
    passphrase: &str,
    r: Result<(), String>,
)
    requires
        call_ensures(check_passphrase, (vault_exists, passphrase), r),
    ensures
        r is Err <==> !vault_exists && passphrase@.len() < 8,
{
}

/// What is shown of a group is its own: its name, and ids of it, of its creator
/// and of every member, in their order, that can be read back.
pub proof fn group_is_shown_as_it_is(g: GroupInfo, r: GroupDto)
    requires
        call_ensures(group_dto, (g,), r),
    ensures
        r.name == g.name,
        unhex(r.id@) == g.id@,
        names_peer(r.creator@, g.creator),
        r.members@.len() == g.members@.len(),
        forall|i: int|
            0 <= i < g.members@.len() ==> names_peer((#[trigger] r.members@[i])@, g.members@[i]),
{
    crate::hexid::hex_round_trip(g.id@);
    crate::hexid::hex_round_trip(g.creator@);
    let names = texts(r.members@);
    assert(names.len() == r.members@.len());
    assert forall|i: int| 0 <= i < g.members@.len() implies names_peer(
        (#[trigger] r.members@[i])@,
        g.members@[i],
    ) by {
        assert(names[i] == r.members@[i]@);
        crate::hexid::hex_round_trip(g.members@[i]@);
    }
}

/// A file is received just where somebody else has sent it, and is stored under
/// a name that ends in its own.
pub proof fn files_of_others_are_received(m: Message, me: &PeerKey, r: Option<String>)
    requires
        call_ensures(received_name, (&m, me), r),
    ensures
        r is Some <==> m.kind is File && m.author != *me,
        r is Some ==> m.kind->File_0.name@.is_suffix_of(r->0@),
{
    if r is Some {
        let f = m.kind->File_0;
        crate::transfer::stored_names_tell_files_apart(
            f.transfer_id,
            f.transfer_id,
            f.name@,
            f.name@,
        );
    }
}

} // verus!
