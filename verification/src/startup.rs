//! What a node has of its vault when it starts.

#[allow(unused_imports)]
use crate::contact::Contact;
#[allow(unused_imports)]
use crate::conversation::{ConversationModel, Snapshot};
#[allow(unused_imports)]
use crate::hexid::{keyed_id, keyed_id_round_trip};
#[allow(unused_imports)]
use crate::persist::{by_id, complaint, entry_name, load_warnings, readable, unreadable, EntryValue};
#[allow(unused_imports)]
use crate::protocol::{GroupId, GroupInfo, PeerKey};
#[allow(unused_imports)]
use crate::queries::{contacts_by_peer, groups_by_id, is_snapshot_of, restored_by_key, warn};
use vstd::prelude::*;

verus! {

/// Every conversation that was stored is there again: under each key stands what
/// the last snapshot under that key restores, and under no other key is there
/// one.
pub proof fn every_conversation_is_restored<const N: usize>(s: Seq<([u8; N], Snapshot)>)
    ensures
        forall|k: [u8; N]| #[trigger]
            restored_by_key(s).contains_key(k) <==> exists|i: int|
                0 <= i < s.len() && (#[trigger] s[i]).0 == k,
        forall|i: int|
            0 <= i < s.len() && (forall|j: int| i < j < s.len() ==> (#[trigger] s[j]).0 != s[i].0)
                ==> restored_by_key(s)[(#[trigger] s[i]).0] == s[i].1.restores(),
    decreases s.len(),
{
    if s.len() > 0 {
        let init = s.drop_last();
        let n = s.len() - 1;
        every_conversation_is_restored(init);
        assert forall|k: [u8; N]| #[trigger] restored_by_key(s).contains_key(k) <==> exists|i: int|
            0 <= i < s.len() && (#[trigger] s[i]).0 == k by {
            if restored_by_key(init).contains_key(k) {
                let i = choose|i: int| 0 <= i < init.len() && (#[trigger] init[i]).0 == k;
                assert(s[i].0 == k);
            }
            if exists|i: int| 0 <= i < s.len() && (#[trigger] s[i]).0 == k {
                let i = choose|i: int| 0 <= i < s.len() && (#[trigger] s[i]).0 == k;
                if i < n {
                    assert(init[i].0 == k);
                }
            }
            assert(s[n] == s.last());
        }
        assert forall|i: int|
            0 <= i < s.len() && (forall|j: int|
                i < j < s.len() ==> (#[trigger] s[j]).0 != s[i].0) implies restored_by_key(
            s,
        )[(#[trigger] s[i]).0] == s[i].1.restores() by {
            if i < n {
                assert(s[n].0 != s[i].0);
                assert(init[i] == s[i]);
                assert forall|j: int| i < j < init.len() implies (#[trigger] init[j]).0
                    != init[i].0 by {
                    assert(s[j].0 != s[i].0);
                }
                assert(restored_by_key(init)[init[i].0] == init[i].1.restores());
            }
        }
    }
}

/// Where the conversations were stored under distinct keys, each is restored
/// from its own snapshot, and holds what the conversation held when the snapshot
/// was taken.
pub proof fn conversations_come_back<const N: usize>(
    s: Seq<([u8; N], Snapshot)>,
    held: Map<[u8; N], ConversationModel>,
)
    requires
        forall|i: int, j: int| 0 <= i < j < s.len() ==> (#[trigger] s[i]).0 != (#[trigger] s[j]).0,
        forall|i: int|
            0 <= i < s.len() ==> held.contains_key((#[trigger] s[i]).0) && held[s[i].0].wf()
                && is_snapshot_of(s[i].1, held[s[i].0]),
        forall|k: [u8; N]| #[trigger]
            held.contains_key(k) ==> exists|i: int| 0 <= i < s.len() && (#[trigger] s[i]).0 == k,
    ensures
        restored_by_key(s).dom() == held.dom(),
        forall|k: [u8; N]| #[trigger]
            held.contains_key(k) ==> restored_by_key(s)[k].messages == held[k].messages
                && restored_by_key(s)[k].reactions == held[k].reactions && restored_by_key(
                s,
            )[k].read == held[k].read && restored_by_key(s)[k].ordered() == held[k].ordered(),
{
    every_conversation_is_restored(s);
    assert(restored_by_key(s).dom() =~= held.dom());
    assert forall|k: [u8; N]| #[trigger] held.contains_key(k) implies restored_by_key(s)[k].messages
        == held[k].messages && restored_by_key(s)[k].reactions == held[k].reactions
        && restored_by_key(s)[k].read == held[k].read && restored_by_key(s)[k].ordered()
        == held[k].ordered() by {
        let i = choose|i: int| 0 <= i < s.len() && (#[trigger] s[i]).0 == k;
        crate::effects::stored_conversation_is_restored(s[i].1, held[k]);
        assert(restored_by_key(s)[s[i].0] == s[i].1.restores());
    }
}

/// Every stored contact is there again: under each peer stands the last one that
/// was stored for it, and there is no other.
pub proof fn every_contact_is_restored(s: Seq<Contact>)
    ensures
        forall|k: PeerKey| #[trigger]
            contacts_by_peer(s).contains_key(k) <==> exists|i: int|
                0 <= i < s.len() && (#[trigger] s[i]).peer == k,
        forall|i: int|
            0 <= i < s.len() && (forall|j: int|
                i < j < s.len() ==> (#[trigger] s[j]).peer != s[i].peer) ==> contacts_by_peer(
                s,
            )[(#[trigger] s[i]).peer] == s[i]@,
    decreases s.len(),
{
    if s.len() > 0 {
        let init = s.drop_last();
        let n = s.len() - 1;
        every_contact_is_restored(init);
        assert forall|k: PeerKey| #[trigger] contacts_by_peer(s).contains_key(k) <==> exists|i: int|
            0 <= i < s.len() && (#[trigger] s[i]).peer == k by {
            if contacts_by_peer(init).contains_key(k) {
                let i = choose|i: int| 0 <= i < init.len() && (#[trigger] init[i]).peer == k;
                assert(s[i].peer == k);
            }
            if exists|i: int| 0 <= i < s.len() && (#[trigger] s[i]).peer == k {
                let i = choose|i: int| 0 <= i < s.len() && (#[trigger] s[i]).peer == k;
                if i < n {
                    assert(init[i].peer == k);
                }
            }
            assert(s[n] == s.last());
        }
        assert forall|i: int|
            0 <= i < s.len() && (forall|j: int|
                i < j < s.len() ==> (#[trigger] s[j]).peer != s[i].peer) implies contacts_by_peer(
            s,
        )[(#[trigger] s[i]).peer] == s[i]@ by {
            if i < n {
                assert(s[n].peer != s[i].peer);
                assert(init[i] == s[i]);
                assert forall|j: int| i < j < init.len() implies (#[trigger] init[j]).peer
                    != init[i].peer by {
                    assert(s[j].peer != s[i].peer);
                }
                assert(contacts_by_peer(init)[init[i].peer] == init[i]@);
            }
        }
    }
}

/// Every stored group is there again: under each id stands the last one that was
/// stored for it, and there is no other.
pub proof fn every_group_is_restored(s: Seq<GroupInfo>)
    ensures
        forall|k: GroupId| #[trigger]
            groups_by_id(s).contains_key(k) <==> exists|i: int|
                0 <= i < s.len() && (#[trigger] s[i]).id == k,
        forall|i: int|
            0 <= i < s.len() && (forall|j: int|
                i < j < s.len() ==> (#[trigger] s[j]).id != s[i].id) ==> groups_by_id(s)[(
            #[trigger] s[i]).id] == s[i]@,
    decreases s.len(),
{
    if s.len() > 0 {
        let init = s.drop_last();
        let n = s.len() - 1;
        every_group_is_restored(init);
        assert forall|k: GroupId| #[trigger] groups_by_id(s).contains_key(k) <==> exists|i: int|
            0 <= i < s.len() && (#[trigger] s[i]).id == k by {
            if groups_by_id(init).contains_key(k) {
                let i = choose|i: int| 0 <= i < init.len() && (#[trigger] init[i]).id == k;
                assert(s[i].id == k);
            }
            if exists|i: int| 0 <= i < s.len() && (#[trigger] s[i]).id == k {
                let i = choose|i: int| 0 <= i < s.len() && (#[trigger] s[i]).id == k;
                if i < n {
                    assert(init[i].id == k);
                }
            }
            assert(s[n] == s.last());
        }
        assert forall|i: int|
            0 <= i < s.len() && (forall|j: int|
                i < j < s.len() ==> (#[trigger] s[j]).id != s[i].id) implies groups_by_id(s)[(
        #[trigger] s[i]).id] == s[i]@ by {
            if i < n {
                assert(s[n].id != s[i].id);
                assert(init[i] == s[i]);
                assert forall|j: int| i < j < init.len() implies (#[trigger] init[j]).id
                    != init[i].id by {
                    assert(s[j].id != s[i].id);
                }
                assert(groups_by_id(init)[init[i].id] == init[i]@);
            }
        }
    }
}

/// The owner is told of every problem with the vault, in the order in which they
/// were found, and of nothing else.
pub proof fn every_warning_is_told(details: Seq<String>)
    ensures
        warn(details).len() == details.len(),
        forall|i: int|
            0 <= i < details.len() ==> {
                &&& (#[trigger] warn(details)[i]) is Emit
                &&& warn(details)[i]->Emit_0 is StorageWarning
                &&& warn(details)[i]->Emit_0->StorageWarning_detail == details[i]@
            },
{
}

/// No value that can be read is lost: each is handed on under its name, and
/// nothing else is.
pub proof fn every_readable_value_is_handed_on<T>(entries: Seq<(String, EntryValue<T>)>)
    ensures
        forall|i: int|
            0 <= i < entries.len() && is_good((#[trigger] entries[i]).1) ==> readable(
                entries,
            ).contains((entries[i].0, good_value(entries[i].1))),
        forall|k: int|
            0 <= k < readable(entries).len() ==> exists|i: int|
                0 <= i < entries.len() && is_good((#[trigger] entries[i]).1) && (
                entries[i].0, good_value(entries[i].1)) == #[trigger] readable(entries)[k],
        readable(entries).len() + unreadable(entries).len() == entries.len(),
    decreases entries.len(),
{
    if entries.len() > 0 {
        let init = entries.drop_last();
        let n = entries.len() - 1;
        every_readable_value_is_handed_on(init);
        let r = readable(entries);
        let r0 = readable(init);
        assert forall|k: int| 0 <= k < r0.len() implies r[k] == #[trigger] r0[k] by {}
        assert forall|i: int| 0 <= i < entries.len() && is_good(
            (#[trigger] entries[i]).1,
        ) implies r.contains((entries[i].0, good_value(entries[i].1))) by {
            if i < n {
                assert(init[i] == entries[i]);
                let item = (init[i].0, good_value(init[i].1));
                assert(r0.contains(item));
                let k = choose|k: int| 0 <= k < r0.len() && r0[k] == item;
                assert(r[k] == item);
            } else {
                assert(r[r0.len() as int] == (entries[i].0, good_value(entries[i].1)));
            }
        }
        assert forall|k: int| 0 <= k < r.len() implies exists|i: int|
            0 <= i < entries.len() && is_good((#[trigger] entries[i]).1) && (
            entries[i].0, good_value(entries[i].1)) == #[trigger] r[k] by {
            if k < r0.len() {
                assert(r[k] == r0[k]);
                let i = choose|i: int|
                    0 <= i < init.len() && is_good((#[trigger] init[i]).1) && (
                    init[i].0, good_value(init[i].1)) == r0[k];
                assert(entries[i] == init[i]);
            } else {
                assert(is_good(entries[n].1));
            }
        }
    }
}

/// The value was decrypted and decoded.
pub open spec fn is_good<T>(value: EntryValue<T>) -> bool {
    value is Ok && value->Ok_0 is Ok
}

/// The value that was decoded.
pub open spec fn good_value<T>(value: EntryValue<T>) -> T {
    value->Ok_0->Ok_0
}

/// Why a value was not decrypted or not decoded.
pub open spec fn fault<T>(value: EntryValue<T>) -> Seq<char> {
    if value is Ok {
        value->Ok_0->Err_0@
    } else {
        value->Err_0.text()
    }
}

/// Every value that cannot be read is set aside under its name and complained
/// of, with the name and the reason; nothing else is.
pub proof fn every_unreadable_value_is_complained_of<T>(entries: Seq<(String, EntryValue<T>)>)
    ensures
        load_warnings(entries).len() == unreadable(entries).len(),
        forall|i: int|
            0 <= i < entries.len() && !is_good((#[trigger] entries[i]).1) ==> exists|k: int|
                0 <= k < unreadable(entries).len() && #[trigger] unreadable(entries)[k]
                    == entries[i].0 && complains_of(
                    load_warnings(entries)[k],
                    entries[i].0@,
                    fault(entries[i].1),
                ),
        forall|k: int|
            0 <= k < unreadable(entries).len() ==> exists|i: int|
                0 <= i < entries.len() && !is_good((#[trigger] entries[i]).1) && entries[i].0
                    == #[trigger] unreadable(entries)[k],
    decreases entries.len(),
{
    if entries.len() > 0 {
        let init = entries.drop_last();
        let n = entries.len() - 1;
        every_unreadable_value_is_complained_of(init);
        let u = unreadable(entries);
        let w = load_warnings(entries);
        let u0 = unreadable(init);
        let w0 = load_warnings(init);
        assert(entries[n] == entries.last());
        assert(complaint(entries[n].1) is None <==> is_good(entries[n].1));
        assert forall|k: int| 0 <= k < u0.len() implies u[k] == #[trigger] u0[k] by {}
        assert forall|k: int| 0 <= k < w0.len() implies w[k] == #[trigger] w0[k] by {}
        assert forall|i: int| 0 <= i < entries.len() && !is_good(
            (#[trigger] entries[i]).1,
        ) implies exists|k: int|
            0 <= k < u.len() && #[trigger] u[k] == entries[i].0 && complains_of(
                w[k],
                entries[i].0@,
                fault(entries[i].1),
            ) by {
            if i < n {
                assert(init[i] == entries[i]);
                let k = choose|k: int|
                    0 <= k < u0.len() && #[trigger] u0[k] == init[i].0 && complains_of(
                        w0[k],
                        init[i].0@,
                        fault(init[i].1),
                    );
                assert(u[k] == u0[k] && w[k] == w0[k]);
            } else {
                let k = u0.len() as int;
                assert(u[k] == entries[n].0);
                assert(w[k] == naming(
                    "unreadable vault entry "@,
                    entries[n].0@,
                    " quarantined: "@,
                    fault(entries[n].1),
                ));
            }
        }
        assert forall|k: int| 0 <= k < u.len() implies exists|i: int|
            0 <= i < entries.len() && !is_good((#[trigger] entries[i]).1) && entries[i].0
                == #[trigger] u[k] by {
            if k < u0.len() {
                assert(u[k] == u0[k]);
                let i = choose|i: int|
                    0 <= i < init.len() && !is_good((#[trigger] init[i]).1) && init[i].0 == u0[k];
                assert(entries[i] == init[i]);
            } else {
                assert(!is_good(entries[n].1));
            }
        }
    }
}

/// The warning names the thing and gives the reason.
pub open spec fn complains_of(warning: Seq<char>, name: Seq<char>, reason: Seq<char>) -> bool {
    exists|before: Seq<char>, between: Seq<char>|
        warning == #[trigger] naming(before, name, between, reason)
}

/// A text that names a thing and gives a reason.
pub open spec fn naming(
    before: Seq<char>,
    name: Seq<char>,
    between: Seq<char>,
    reason: Seq<char>,
) -> Seq<char> {
    before + name + between + reason
}

/// What was stored under the name that belongs to an id comes back under that
/// id.
pub proof fn stored_values_come_back_by_id<const N: usize, T>(
    items: Seq<(String, T)>,
    prefix: Seq<char>,
    i: int,
    id: Seq<u8>,
)
    requires
        0 <= i < items.len(),
        id.len() == N,
        items[i].0@ == entry_name(prefix, id),
    ensures
        by_id::<N, T>(items, prefix).contains((id, items[i].1)),
    decreases items.len(),
{
    let b = by_id::<N, T>(items, prefix);
    let init = items.drop_last();
    let b0 = by_id::<N, T>(init, prefix);
    let item = (id, items[i].1);
    if i < items.len() - 1 {
        assert(init[i] == items[i]);
        stored_values_come_back_by_id::<N, T>(init, prefix, i, id);
        let k = choose|k: int| 0 <= k < b0.len() && b0[k] == item;
        assert(b[k] == item);
    } else {
        keyed_id_round_trip(prefix, id);
        assert(keyed_id(items.last().0@, prefix) == Some(id));
        assert(b == b0.push(item));
        assert(b[b0.len() as int] == item);
    }
}

/// Nothing comes back by an id that was not stored under a name that stands for
/// it.
pub proof fn only_stored_values_come_back<const N: usize, T>(
    items: Seq<(String, T)>,
    prefix: Seq<char>,
    k: int,
) -> (i: int)
    requires
        0 <= k < by_id::<N, T>(items, prefix).len(),
    ensures
        0 <= i < items.len(),
        items[i].1 == by_id::<N, T>(items, prefix)[k].1,
        keyed_id(items[i].0@, prefix) == Some(by_id::<N, T>(items, prefix)[k].0),
        by_id::<N, T>(items, prefix)[k].0.len() == N,
        by_id::<N, T>(items, prefix).len() <= items.len(),
    decreases items.len(),
{
    let b = by_id::<N, T>(items, prefix);
    let init = items.drop_last();
    let b0 = by_id::<N, T>(init, prefix);
    if k < b0.len() {
        assert(b[k] == b0[k]);
        let i = only_stored_values_come_back::<N, T>(init, prefix, k);
        assert(init[i] == items[i]);
        i
    } else {
        if b0.len() > 0 {
            let _ = only_stored_values_come_back::<N, T>(init, prefix, 0);
        }
        assert(items.last() == items[items.len() - 1]);
        items.len() - 1
    }
}

/// A conversation that was stored under the name of its peer is loaded under that
/// peer, and one of a group under that group.
pub proof fn stored_conversations_are_loaded<T>(
    items: Vec<(String, T)>,
    group_items: Vec<(String, T)>,
    convos: Vec<(PeerKey, T)>,
    group_convos: Vec<(GroupId, T)>,
    peer: &PeerKey,
    gid: &GroupId,
    name: String,
    group_name: String,
    i: int,
    j: int,
)
    requires
        call_ensures(crate::persist::convo_name, (peer,), name),
        call_ensures(crate::persist::group_convo_name, (gid,), group_name),
        call_ensures(crate::persist::load_convos::<T>, (items,), convos),
        call_ensures(crate::persist::load_group_convos::<T>, (group_items,), group_convos),
        0 <= i < items@.len(),
        items@[i].0@ == name@,
        0 <= j < group_items@.len(),
        group_items@[j].0@ == group_name@,
    ensures
        convos@.contains((*peer, items@[i].1)),
        group_convos@.contains((*gid, group_items@[j].1)),
        convos@.len() <= items@.len(),
        group_convos@.len() <= group_items@.len(),
{
    let p = crate::persist::CONVO_PREFIX@;
    let q = crate::persist::GROUP_CONVO_PREFIX@;
    let a = crate::persist::id_views(convos@);
    let b = crate::persist::id_views(group_convos@);
    stored_values_come_back_by_id::<32, T>(items@, p, i, peer@);
    stored_values_come_back_by_id::<16, T>(group_items@, q, j, gid@);
    let k = choose|k: int| 0 <= k < a.len() && a[k] == (peer@, items@[i].1);
    let l = choose|l: int| 0 <= l < b.len() && b[l] == (gid@, group_items@[j].1);
    assert(convos@[k].0 =~= *peer);
    assert(group_convos@[l].0 =~= *gid);
    assert(convos@[k] == (*peer, items@[i].1));
    assert(group_convos@[l] == (*gid, group_items@[j].1));
    let _ = only_stored_values_come_back::<32, T>(items@, p, k);
    let _ = only_stored_values_come_back::<16, T>(group_items@, q, l);
}

} // verus!
