//! What a node keeps in the vault: contacts, conversations, groups and its
//! messaging account, each under a name of its own.

use crate::crypto::{is_sealable, CryptoError};
#[allow(unused_imports)]
use crate::crypto::sealable;
use crate::engine::{CoreError, Engine, EntryRead};
#[allow(unused_imports)]
use crate::engine::{entry_secret, stores};
use crate::hexid::{hexgroup, hexkey, parse_keyed_id};
#[allow(unused_imports)]
use crate::hexid::{hex_text, keyed_id, keyed_id_round_trip};
use crate::protocol::{Action, EngineEvent, GroupId, PeerKey};
#[allow(unused_imports)]
use crate::protocol::EventModel;
use crate::ratchet::MessagingAccount;
#[allow(unused_imports)]
use crate::ratchet::{pickle_round_trip, pickled_account, pickled_identity, PreKeyBundle};
use crate::store::{StoreError, VaultWrite};
#[allow(unused_imports)]
use crate::store::{quarantined, raw_of, secret, write_models, written, written_all, WriteModel};
use vstd::prelude::*;

verus! {

/// The entry that holds the messaging account.
pub const MSG_ACCOUNT_KEY: &'static str = "msg_account";

/// What the names of contacts start with.
pub const CONTACT_PREFIX: &'static str = "contact/";

/// What the names of conversations start with.
pub const CONVO_PREFIX: &'static str = "convo/";

/// What the names of groups start with.
pub const GROUP_PREFIX: &'static str = "group/";

/// What the names of group conversations start with.
pub const GROUP_CONVO_PREFIX: &'static str = "gconvo/";

/// The name of an entry: a prefix and an id in hexadecimal.
pub open spec fn entry_name(prefix: Seq<char>, id: Seq<u8>) -> Seq<char> {
    prefix + hex_text(id)
}

/// The name of a contact.
pub fn contact_name(peer: &PeerKey) -> (r: String)
    ensures
        r@ == entry_name(CONTACT_PREFIX@, peer@),
{
    CONTACT_PREFIX.to_owned().concat(hexkey(peer).as_str())
}

/// The name of the conversation with a peer.
pub fn convo_name(peer: &PeerKey) -> (r: String)
    ensures
        r@ == entry_name(CONVO_PREFIX@, peer@),
{
    CONVO_PREFIX.to_owned().concat(hexkey(peer).as_str())
}

/// The name of a group.
pub fn group_name(gid: &GroupId) -> (r: String)
    ensures
        r@ == entry_name(GROUP_PREFIX@, gid@),
{
    GROUP_PREFIX.to_owned().concat(hexgroup(gid).as_str())
}

/// The name of the conversation of a group.
pub fn group_convo_name(gid: &GroupId) -> (r: String)
    ensures
        r@ == entry_name(GROUP_CONVO_PREFIX@, gid@),
{
    GROUP_CONVO_PREFIX.to_owned().concat(hexgroup(gid).as_str())
}

/// A value of an entry: it could not be decrypted, it was decrypted and not
/// decoded, for the reason given, or it was decoded.
pub type EntryValue<T> = Result<Result<T, String>, CryptoError>;

/// Why a value could not be read.
pub open spec fn complaint<T>(value: EntryValue<T>) -> Option<Seq<char>> {
    match value {
        Ok(Ok(_)) => None,
        Ok(Err(reason)) => Some(reason@),
        Err(e) => Some(e.text()),
    }
}

/// The values that could be read, with their names, in order.
pub open spec fn readable<T>(entries: Seq<(String, EntryValue<T>)>) -> Seq<(String, T)>
    decreases entries.len(),
{
    if entries.len() == 0 {
        Seq::empty()
    } else {
        let rest = readable(entries.drop_last());
        match entries.last() {
            (name, Ok(Ok(value))) => rest.push((name, value)),
            _ => rest,
        }
    }
}

/// The names of the values that could not be read, in order.
pub open spec fn unreadable<T>(entries: Seq<(String, EntryValue<T>)>) -> Seq<String>
    decreases entries.len(),
{
    if entries.len() == 0 {
        Seq::empty()
    } else {
        let rest = unreadable(entries.drop_last());
        if complaint(entries.last().1) is Some {
            rest.push(entries.last().0)
        } else {
            rest
        }
    }
}

/// What the owner is told of the values that could not be read.
pub open spec fn load_warnings<T>(entries: Seq<(String, EntryValue<T>)>) -> Seq<Seq<char>>
    decreases entries.len(),
{
    if entries.len() == 0 {
        Seq::empty()
    } else {
        let rest = load_warnings(entries.drop_last());
        match complaint(entries.last().1) {
            Some(reason) => rest.push(
                "unreadable vault entry "@ + entries.last().0@ + " quarantined: "@ + reason,
            ),
            None => rest,
        }
    }
}

/// The texts of a list of strings.
pub open spec fn texts(s: Seq<String>) -> Seq<Seq<char>> {
    s.map_values(|t: String| t@)
}

/// What was made of a list of entries.
pub struct Loaded<T> {
    /// The values that could be read, with their names.
    pub items: Vec<(String, T)>,
    /// The names of those that could not, which are to be set aside.
    pub quarantine: Vec<String>,
    /// What the owner is told.
    pub warnings: Vec<String>,
}

/// Parts the entries that could be read from those that could not.
pub fn load_prefix<T>(entries: Vec<(String, EntryValue<T>)>) -> (r: Loaded<T>)
    ensures
        r.items@ == readable(entries@),
        r.quarantine@ == unreadable(entries@),
        texts(r.warnings@) == load_warnings(entries@),
{
    let ghost all = entries@;
    let mut items: Vec<(String, T)> = Vec::new();
    let mut quarantine: Vec<String> = Vec::new();
    let mut warnings: Vec<String> = Vec::new();
    assert(texts(warnings@) =~= load_warnings(all.take(0)));
    for entry in it: entries
        invariant
            it.seq() == all,
            items@ == readable(all.take(it.index())),
            quarantine@ == unreadable(all.take(it.index())),
            texts(warnings@) == load_warnings(all.take(it.index())),
    {
        let ghost i = it.index();
        let ghost told = warnings@;
        proof {
            assert(all.take(i + 1).drop_last() =~= all.take(i));
            assert(all.take(i + 1).last() == entry);
        }
        let (name, value) = entry;
        let bad = match value {
            Ok(Ok(value)) => {
                items.push((name, value));
                None
            },
            Ok(Err(reason)) => Some((name, reason)),
            Err(e) => Some((name, e.message())),
        };
        if let Some((name, reason)) = bad {
            let warning = "unreadable vault entry ".to_owned().concat(name.as_str()).concat(
                " quarantined: ",
            ).concat(reason.as_str());
            warnings.push(warning);
            assert(texts(warnings@) =~= texts(told).push(warning@));
            quarantine.push(name);
        }
    }
    assert(all.take(all.len() as int) =~= all);
    Loaded { items, quarantine, warnings }
}

/// The values whose name is the prefix and an id of `N` bytes, by that id.
pub open spec fn by_id<const N: usize, T>(items: Seq<(String, T)>, prefix: Seq<char>) -> Seq<
    (Seq<u8>, T),
>
    decreases items.len(),
{
    if items.len() == 0 {
        Seq::empty()
    } else {
        let rest = by_id::<N, T>(items.drop_last(), prefix);
        match keyed_id(items.last().0@, prefix) {
            Some(id) => if id.len() == N {
                rest.push((id, items.last().1))
            } else {
                rest
            },
            None => rest,
        }
    }
}

/// The ids as sequences.
pub open spec fn id_views<const N: usize, T>(s: Seq<([u8; N], T)>) -> Seq<(Seq<u8>, T)> {
    s.map_values(|p: ([u8; N], T)| (p.0@, p.1))
}

/// The values whose name is the prefix and an id of `N` bytes, by that id; the
/// others are passed over.
fn keyed_items<const N: usize, T>(items: Vec<(String, T)>, prefix: &str) -> (r: Vec<([u8; N], T)>)
    ensures
        id_views(r@) == by_id::<N, T>(items@, prefix@),
{
    let ghost all = items@;
    let mut out: Vec<([u8; N], T)> = Vec::new();
    assert(id_views(out@) =~= by_id::<N, T>(all.take(0), prefix@));
    for item in it: items
        invariant
            it.seq() == all,
            id_views(out@) == by_id::<N, T>(all.take(it.index()), prefix@),
    {
        let ghost i = it.index();
        let ghost before = out@;
        proof {
            assert(all.take(i + 1).drop_last() =~= all.take(i));
            assert(all.take(i + 1).last() == item);
        }
        let (name, value) = item;
        if let Some(id) = parse_keyed_id::<N>(name.as_str(), prefix) {
            out.push((id, value));
            assert(id_views(out@) =~= id_views(before).push((id@, value)));
        }
    }
    assert(all.take(all.len() as int) =~= all);
    out
}

/// The conversations by their peers. An entry whose name is no peer is passed
/// over.
pub fn load_convos<T>(items: Vec<(String, T)>) -> (r: Vec<(PeerKey, T)>)
    ensures
        id_views(r@) == by_id::<32, T>(items@, CONVO_PREFIX@),
{
    keyed_items::<32, T>(items, CONVO_PREFIX)
}

/// The group conversations by their groups. An entry whose name is no group is
/// passed over.
pub fn load_group_convos<T>(items: Vec<(String, T)>) -> (r: Vec<(GroupId, T)>)
    ensures
        id_views(r@) == by_id::<16, T>(items@, GROUP_CONVO_PREFIX@),
{
    keyed_items::<16, T>(items, GROUP_CONVO_PREFIX)
}

/// The change stores a pickle of a messaging account.
pub open spec fn stores_account(w: WriteModel, key: Seq<u8>, account: MessagingAccount) -> bool {
    exists|pickle: Seq<u8>| #[trigger]
        account.pickled(pickle) && pickled_identity(pickle) == Some(account@.identity_key) && stores(
            w,
            key,
            MSG_ACCOUNT_KEY@,
            pickle,
        )
}

/// A pickle of the account is too long to be sealed.
pub open spec fn is_unsealable(account: MessagingAccount) -> bool {
    exists|pickle: Seq<u8>| #[trigger] account.pickled(pickle) && !sealable(pickle.len())
}

/// What the table held under the name of the account, as far as it was read.
pub open spec fn entry_raw(read: EntryRead) -> Option<Seq<u8>> {
    match read {
        Ok(Some(bytes)) => Some(bytes@),
        _ => None,
    }
}

impl Engine {
    /// Stores the encoding of a contact.
    pub fn save_contact(&self, peer: &PeerKey, json: &[u8]) -> (r: VaultWrite)
        requires
            sealable(json@.len()),
        ensures
            stores(r@, self.key(), entry_name(CONTACT_PREFIX@, peer@), json@),
    {
        self.store().put_secret(contact_name(peer).as_str(), json)
    }

    /// Stores the encoding of the conversation with a peer.
    pub fn save_convo(&self, peer: &PeerKey, json: &[u8]) -> (r: VaultWrite)
        requires
            sealable(json@.len()),
        ensures
            stores(r@, self.key(), entry_name(CONVO_PREFIX@, peer@), json@),
    {
        self.store().put_secret(convo_name(peer).as_str(), json)
    }

    /// Stores the encoding of a group.
    pub fn save_group(&self, gid: &GroupId, json: &[u8]) -> (r: VaultWrite)
        requires
            sealable(json@.len()),
        ensures
            stores(r@, self.key(), entry_name(GROUP_PREFIX@, gid@), json@),
    {
        self.store().put_secret(group_name(gid).as_str(), json)
    }

    /// Stores the encoding of the conversation of a group.
    pub fn save_group_convo(&self, gid: &GroupId, json: &[u8]) -> (r: VaultWrite)
        requires
            sealable(json@.len()),
        ensures
            stores(r@, self.key(), entry_name(GROUP_CONVO_PREFIX@, gid@), json@),
    {
        self.store().put_secret(group_convo_name(gid).as_str(), json)
    }

    /// Removes a contact and the conversation with it.
    pub fn delete_contact(&self, peer: &PeerKey) -> (r: Vec<VaultWrite>)
        ensures
            write_models(r@) == forget(peer@),
    {
        let mut r: Vec<VaultWrite> = Vec::new();
        r.push(self.store().delete_secret(contact_name(peer).as_str()));
        r.push(self.store().delete_secret(convo_name(peer).as_str()));
        assert(write_models(r@) =~= forget(peer@));
        r
    }

    /// Stores the messaging account. There is no answer where its pickle is too
    /// long to be sealed.
    pub fn save_msg_account(&self, account: &MessagingAccount) -> (r: Option<VaultWrite>)
        ensures
            match r {
                Some(w) => stores_account(w@, self.key(), *account),
                None => is_unsealable(*account),
            },
    {
        let pickle = account.to_pickle_json();
        if !is_sealable(pickle.len()) {
            return None;
        }
        Some(self.store().put_secret(MSG_ACCOUNT_KEY, pickle.as_slice()))
    }

    /// The stored messaging account. One that is missing or cannot be read is
    /// replaced by a fresh one, which is stored; what could not be read is set
    /// aside first.
    pub fn load_or_create_msg_account(&self, read: EntryRead) -> (r: Result<
        (MessagingAccount, Vec<VaultWrite>),
        CoreError,
    >)
        ensures
            match read {
                Err(e) => r == Err::<(MessagingAccount, Vec<VaultWrite>), CoreError>(
                    CoreError::Store(StoreError::Db(e)),
                ),
                Ok(_) => r matches Ok((account, writes)) && loads_account(
                    self.key(),
                    read,
                    account,
                    write_models(writes@),
                ),
            },
    {
        let mut writes: Vec<VaultWrite> = Vec::new();
        match read {
            Err(e) => return Err(CoreError::Store(StoreError::Db(e))),
            Ok(None) => {},
            Ok(Some(bytes)) => {
                let found = self.store().get_secret(Some(bytes.as_slice()));
                if let Ok(Some(pickle)) = found {
                    if let Ok(account) = MessagingAccount::from_pickle_json(pickle.as_slice()) {
                        assert(write_models(writes@) =~= Seq::<WriteModel>::empty());
                        return Ok((account, writes));
                    }
                }
                writes = self.store().quarantine(MSG_ACCOUNT_KEY, Some(bytes.as_slice()));
            },
        }
        let ghost aside = writes@;
        let account = MessagingAccount::new();
        let pickle = account.to_pickle_json();
        let w = self.store().put_secret(MSG_ACCOUNT_KEY, pickle.as_slice());
        writes.push(w);
        proof {
            assert(account.pickled(pickle@));
            assert(write_models(writes@).drop_last() =~= write_models(aside));
            assert(write_models(writes@).last() == w@);
            assert(write_models(aside) =~= quarantined(MSG_ACCOUNT_KEY@, entry_raw(read)));
        }
        Ok((account, writes))
    }
}

/// How the messaging account is loaded from what was read of its entry: one
/// that can be read is left as it is; otherwise what is there is set aside, and
/// a fresh account is stored.
pub open spec fn loads_account(
    key: Seq<u8>,
    read: EntryRead,
    account: MessagingAccount,
    writes: Seq<WriteModel>,
) -> bool {
    match entry_secret(key, read) {
        Ok(Some(pickle)) if pickled_account(pickle) is Some => {
            &&& pickled_account(pickle) == Some(account@)
            &&& writes.len() == 0
        },
        _ => {
            let aside = quarantined(MSG_ACCOUNT_KEY@, entry_raw(read));
            &&& writes.len() == aside.len() + 1
            &&& writes.drop_last() == aside
            &&& stores_account(writes.last(), key, account)
            &&& account@.is_bare()
        },
    }
}

/// What removes a contact and the conversation with it.
pub open spec fn forget(peer: Seq<u8>) -> Seq<WriteModel> {
    seq![
        WriteModel::Remove { name: entry_name(CONTACT_PREFIX@, peer) },
        WriteModel::Remove { name: entry_name(CONVO_PREFIX@, peer) },
    ]
}

/// What could not be stored, for the actions that store something.
pub open spec fn stored_thing(action: Action) -> Option<Seq<char>> {
    match action {
        Action::SaveConvo(_) => Some("conversation"@),
        Action::SaveGroupConvo(_) => Some("group conversation"@),
        Action::SaveGroup(_) => Some("group"@),
        Action::SaveContact(_) => Some("contact"@),
        Action::SaveAccount => Some("messaging account"@),
        _ => None,
    }
}

/// What the owner is told when something could not be stored. The node goes on
/// with what it has in memory.
pub fn persist_failed(action: &Action, error: &CoreError) -> (r: Option<EngineEvent>)
    ensures
        match stored_thing(*action) {
            Some(what) => r matches Some(event) && event@ == (EventModel::StorageWarning {
                detail: "failed to persist "@ + what + ": "@ + error.text(),
            }),
            None => r is None,
        },
{
    let what = match action {
        Action::SaveConvo(_) => "conversation",
        Action::SaveGroupConvo(_) => "group conversation",
        Action::SaveGroup(_) => "group",
        Action::SaveContact(_) => "contact",
        Action::SaveAccount => "messaging account",
        _ => return None,
    };
    let detail = "failed to persist ".to_owned().concat(what).concat(": ").concat(
        error.message().as_str(),
    );
    Some(EngineEvent::StorageWarning { detail })
}

/// What is stored under an id is found under that id again, and no other id
/// has the same name.
pub proof fn entry_names_are_unique(prefix: Seq<char>, id: Seq<u8>, other: Seq<u8>)
    ensures
        keyed_id(entry_name(prefix, id), prefix) == Some(id),
        entry_name(prefix, id) == entry_name(prefix, other) ==> id == other,
{
    keyed_id_round_trip(prefix, id);
    keyed_id_round_trip(prefix, other);
}

/// The names of different kinds of things do not clash: what is stored as one
/// is not listed as another.
pub proof fn kinds_do_not_clash(id: Seq<u8>)
    ensures
        ({
            let contact = entry_name(CONTACT_PREFIX@, id);
            let convo = entry_name(CONVO_PREFIX@, id);
            let group = entry_name(GROUP_PREFIX@, id);
            let gconvo = entry_name(GROUP_CONVO_PREFIX@, id);
            &&& CONTACT_PREFIX@.is_prefix_of(contact) && !CONTACT_PREFIX@.is_prefix_of(convo)
                && !CONTACT_PREFIX@.is_prefix_of(group) && !CONTACT_PREFIX@.is_prefix_of(gconvo)
            &&& CONVO_PREFIX@.is_prefix_of(convo) && !CONVO_PREFIX@.is_prefix_of(contact)
                && !CONVO_PREFIX@.is_prefix_of(group) && !CONVO_PREFIX@.is_prefix_of(gconvo)
            &&& GROUP_PREFIX@.is_prefix_of(group) && !GROUP_PREFIX@.is_prefix_of(contact)
                && !GROUP_PREFIX@.is_prefix_of(convo) && !GROUP_PREFIX@.is_prefix_of(gconvo)
            &&& GROUP_CONVO_PREFIX@.is_prefix_of(gconvo) && !GROUP_CONVO_PREFIX@.is_prefix_of(
                contact,
            ) && !GROUP_CONVO_PREFIX@.is_prefix_of(convo) && !GROUP_CONVO_PREFIX@.is_prefix_of(
                group,
            )
        }),
{
    reveal_strlit("contact/");
    reveal_strlit("convo/");
    reveal_strlit("group/");
    reveal_strlit("gconvo/");
    let t = hex_text(id);
    starts_as(CONTACT_PREFIX@, t);
    starts_as(CONVO_PREFIX@, t);
    starts_as(GROUP_PREFIX@, t);
    starts_as(GROUP_CONVO_PREFIX@, t);
}

/// A text starts with its own beginning, and with nothing that differs from it
/// in one of the first four places.
proof fn starts_as(p: Seq<char>, t: Seq<char>)
    requires
        p.len() >= 4,
    ensures
        p.is_prefix_of(p + t),
        forall|q: Seq<char>|
            q.len() >= 4 && (q[0] != p[0] || q[1] != p[1] || q[2] != p[2] || q[3] != p[3])
                ==> !(#[trigger] q.is_prefix_of(p + t)),
{
    assert((p + t).subrange(0, p.len() as int) =~= p);
    assert forall|q: Seq<char>|
        q.len() >= 4 && (q[0] != p[0] || q[1] != p[1] || q[2] != p[2] || q[3]
            != p[3]) implies !(#[trigger] q.is_prefix_of(p + t)) by {
        if q.is_prefix_of(p + t) {
            let s = (p + t).subrange(0, q.len() as int);
            assert(q == s);
            assert(s[0] == p[0] && s[1] == p[1] && s[2] == p[2] && s[3] == p[3]);
        }
    }
}

/// A stored messaging account survives a restart: the vault gives back a pickle
/// of it, and every account that is restored from the pickle has its identity
/// key, owns its bundles, and of an orderly account holds just what that held.
pub proof fn stored_account_is_restored(
    vault: Map<Seq<char>, Seq<u8>>,
    w: WriteModel,
    key: Seq<u8>,
    stored: MessagingAccount,
    restored: MessagingAccount,
    bundle: PreKeyBundle,
)
    requires
        stores_account(w, key, stored),
    ensures
        ({
            let found = secret(key, raw_of(written(vault, w), MSG_ACCOUNT_KEY@));
            &&& found matches Ok(Some(pickle))
            &&& pickled_identity(pickle) == Some(stored@.identity_key)
            &&& pickled_account(pickle) == Some(restored@) ==> {
                &&& restored@.identity_key == stored@.identity_key
                &&& stored.owns(bundle) ==> restored.owns(bundle)
                &&& stored@.orderly ==> restored@ == stored@
            }
        }),
{
    let pickle = choose|pickle: Seq<u8>| #[trigger]
        stored.pickled(pickle) && pickled_identity(pickle) == Some(stored@.identity_key) && stores(
            w,
            key,
            MSG_ACCOUNT_KEY@,
            pickle,
        );
    if pickled_account(pickle) == Some(restored@) {
        pickle_round_trip(stored, restored, pickle, bundle);
    }
}

/// The messaging account is stable: whatever was stored, after it was loaded and
/// the changes were made, the vault gives back a pickle of the very account, and
/// loading it again gives that account and changes nothing.
pub proof fn next_load_gives_the_same_account(
    vault: Map<Seq<char>, Seq<u8>>,
    key: Seq<u8>,
    read: EntryRead,
    account: MessagingAccount,
    writes: Seq<WriteModel>,
    again: EntryRead,
    next: MessagingAccount,
    more: Seq<WriteModel>,
)
    requires
        read is Ok,
        again is Ok,
        entry_raw(read) == raw_of(vault, MSG_ACCOUNT_KEY@),
        loads_account(key, read, account, writes),
        entry_raw(again) == raw_of(written_all(vault, writes), MSG_ACCOUNT_KEY@),
        loads_account(key, again, next, more),
    ensures
        next@ == account@,
        more.len() == 0,
{
    if writes.len() > 0 {
        assert(written_all(vault, writes) == written(
            written_all(vault, writes.drop_last()),
            writes.last(),
        ));
    } else {
        assert(written_all(vault, writes) == vault);
    }
}

/// A forgotten contact is gone from the vault with its conversation, and all
/// other entries are as they were.
pub proof fn forgotten_contact_is_gone(
    vault: Map<Seq<char>, Seq<u8>>,
    peer: Seq<u8>,
    other: Seq<char>,
)
    ensures
        ({
            let after = written_all(vault, forget(peer));
            let contact = entry_name(CONTACT_PREFIX@, peer);
            let convo = entry_name(CONVO_PREFIX@, peer);
            &&& raw_of(after, contact) is None
            &&& raw_of(after, convo) is None
            &&& other != contact && other != convo ==> raw_of(after, other) == raw_of(vault, other)
        }),
{
    reveal_with_fuel(written_all, 3);
    let writes = forget(peer);
    assert(writes.drop_last() =~= seq![writes[0]]);
    assert(writes.drop_last().drop_last() =~= Seq::<WriteModel>::empty());
}

/// The owner is warned of everything that could not be stored, and of nothing
/// else; the warning says why.
pub proof fn failures_to_store_are_told(action: Action, error: CoreError, r: Option<EngineEvent>)
    requires
        call_ensures(persist_failed, (&action, &error), r),
    ensures
        r is Some <==> action is SaveConvo || action is SaveGroupConvo || action is SaveGroup
            || action is SaveContact || action is SaveAccount,
        r is Some ==> r->0@ is StorageWarning && error.text().is_suffix_of(
            r->0@->StorageWarning_detail,
        ),
{
    if r is Some {
        let d = r->0@->StorageWarning_detail;
        let n = d.len() - error.text().len();
        assert(d.skip(n) =~= error.text());
    }
}

} // verus!
