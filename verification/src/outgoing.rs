//! What a node says to its peers, and what comes of it.

#[allow(unused_imports)]
use crate::bytes::lex_lt;
#[allow(unused_imports)]
use crate::convergence::{delta_heals, in_order_exists, marked_all_content};
#[allow(unused_imports)]
use crate::exchange::after_delta;
#[allow(unused_imports)]
use crate::identity::SignedProfileModel;
#[allow(unused_imports)]
use crate::keyed::{ascending, ascending_is_in_order, in_order, key_order};
#[allow(unused_imports)]
use crate::order::{filter_content, filter_sorted, map_content, strictly_sorted};
#[allow(unused_imports)]
use crate::protocol::{ActionModel, GroupId, PayloadModel, PeerKey, SyncScope};
#[allow(unused_imports)]
use crate::reception::{delta_is_merged, kept};
#[allow(unused_imports)]
use crate::sending::{fan_out, other_than, send_of};
#[allow(unused_imports)]
use crate::state::StateModel;
#[allow(unused_imports)]
use crate::sync::{reactions_in_order, AuthorId, Message, MessageId, ReactionModel};
use vstd::prelude::*;

verus! {

/// What goes to a group goes to each member but ourselves, to nobody else, and
/// once to each where nobody is a member twice.
pub proof fn everyone_else_is_sent_to(me: PeerKey, members: Seq<PeerKey>, payload: PayloadModel)
    ensures
        forall|p: PeerKey|
            fan_out(me, members, payload).contains(#[trigger] sending(p, payload))
                <==> members.contains(p) && p != me,
        forall|i: int|
            0 <= i < fan_out(me, members, payload).len() ==> exists|p: PeerKey|
                members.contains(p) && p != me && #[trigger] sending(p, payload) == (
                #[trigger] fan_out(me, members, payload)[i]),
        members.no_duplicates() ==> fan_out(me, members, payload).no_duplicates(),
        members.no_duplicates() ==> fan_out(me, members, payload).len()
            == members.to_set().remove(me).len(),
{
    let others = members.filter(other_than(me));
    let acts = fan_out(me, members, payload);
    filter_content(members, other_than(me));
    map_content(others, send_of(payload));
    assert forall|p: PeerKey|
        acts.contains(#[trigger] sending(p, payload)) <==> members.contains(p) && p != me by {
        assert(sending(p, payload) == send_of(payload)(p));
        if members.contains(p) && p != me {
            assert(others.contains(p));
        }
    }
    assert forall|i: int| 0 <= i < acts.len() implies exists|p: PeerKey|
        members.contains(p) && p != me && #[trigger] sending(p, payload) == (#[trigger] acts[i]) by {
        assert(others.contains(others[i]));
        assert(sending(others[i], payload) == acts[i]);
    }
    if members.no_duplicates() {
        assert(others.to_set() =~= members.to_set().remove(me));
        others.unique_seq_to_set();
    }
}

/// Sending a payload to a peer.
pub open spec fn sending(peer: PeerKey, payload: PayloadModel) -> ActionModel {
    ActionModel::Send { peer, payload }
}

/// The members of a new group are those that were named and ourselves, each
/// once and in the order of their ids; and the invitation goes to each that was
/// named but ourselves, once.
pub proof fn everyone_named_is_invited(me: PeerKey, named: Seq<PeerKey>, payload: PayloadModel)
    ensures
        ({
            let all = in_order(named.to_set().insert(me));
            &&& ascending(all)
            &&& all.no_duplicates()
            &&& forall|p: PeerKey| #[trigger] all.contains(p) <==> named.contains(p) || p == me
            &&& forall|p: PeerKey|
                fan_out(me, all, payload).contains(#[trigger] sending(p, payload))
                    <==> named.contains(p) && p != me
            &&& fan_out(me, all, payload).no_duplicates()
        }),
{
    let set = named.to_set().insert(me);
    let all = in_order(set);
    vstd::seq_lib::seq_to_set_is_finite(named);
    in_order_exists(set);
    ascending_is_in_order(all);
    assert forall|p: PeerKey| #[trigger] all.contains(p) <==> named.contains(p) || p == me by {
        assert(all.contains(p) == all.to_set().contains(p));
    }
    everyone_else_is_sent_to(me, all, payload);
}

/// What goes to everybody who is connected goes to each of them once, and to
/// nobody else.
pub proof fn everyone_connected_is_sent_to(s: StateModel, payload: PayloadModel)
    requires
        s.conns.dom().finite(),
    ensures
        ({
            let acts = in_order(s.conns.dom()).map_values(send_of(payload));
            &&& forall|p: PeerKey|
                acts.contains(#[trigger] sending(p, payload)) <==> s.conns.contains_key(p)
            &&& acts.no_duplicates()
            &&& acts.len() == s.conns.len()
        }),
{
    let ids = in_order(s.conns.dom());
    let acts = ids.map_values(send_of(payload));
    in_order_exists(s.conns.dom());
    ascending_is_in_order(ids);
    map_content(ids, send_of(payload));
    assert forall|p: PeerKey|
        acts.contains(#[trigger] sending(p, payload)) <==> s.conns.contains_key(p) by {
        assert(sending(p, payload) == send_of(payload)(p));
        assert(ids.contains(p) == ids.to_set().contains(p));
    }
}

/// The groups that are shared with a peer are those that we know and of which it
/// is a member, each once and in the order of their ids.
pub proof fn shared_groups_are_complete(s: StateModel, peer: PeerKey)
    requires
        s.groups.dom().finite(),
    ensures
        s.shared_groups(peer).no_duplicates(),
        ascending(s.shared_groups(peer)),
        forall|g: GroupId| #[trigger]
            s.shared_groups(peer).contains(g) <==> s.groups.contains_key(g)
                && s.groups[g].members.contains(peer),
{
    let ids = in_order(s.groups.dom());
    let shared = s.shared_groups(peer);
    in_order_exists(s.groups.dom());
    ascending_is_in_order(ids);
    filter_content(ids, s.has_member(peer));
    assert(strictly_sorted(ids, key_order())) by {
        assert forall|i: int, j: int| 0 <= i < j < ids.len() implies key_order::<16>()(
            #[trigger] ids[i],
            #[trigger] ids[j],
        ) by {
            assert(lex_lt(ids[i]@, ids[j]@));
        }
    }
    filter_sorted(ids, s.has_member(peer), key_order());
    assert forall|i: int, j: int| 0 <= i < j < shared.len() implies lex_lt(
        #[trigger] shared[i]@,
        #[trigger] shared[j]@,
    ) by {
        assert(key_order::<16>()(shared[i], shared[j]));
    }
    assert forall|g: GroupId| #[trigger] shared.contains(g) <==> s.groups.contains_key(g)
        && s.groups[g].members.contains(peer) by {
        assert(ids.contains(g) == ids.to_set().contains(g));
    }
}

/// What is sent after a connection holds our profile, what we hold in the
/// conversation with the peer, and for each group that we share with it the
/// group and what we hold of it, the group first. It holds nothing else, and
/// nothing depends on whether anything was said before.
pub proof fn opening_is_complete(
    s: StateModel,
    peer: PeerKey,
    profile: Option<SignedProfileModel>,
)
    requires
        s.groups.dom().finite(),
        forall|g: GroupId| #[trigger] s.groups.contains_key(g) ==> s.groups[g].id == g,
    ensures
        ({
            let opening = s.opening(peer, profile);
            let shared = |g: GroupId|
                s.groups.contains_key(g) && s.groups[g].members.contains(peer);
            &&& opening.contains(PayloadModel::Profile(profile))
            &&& opening.contains(s.have_payload(peer, SyncScope::Direct))
            &&& forall|g: GroupId| #[trigger]
                shared(g) ==> exists|i: int, j: int|
                    0 <= i < j < opening.len() && #[trigger] opening[i]
                        == PayloadModel::GroupAnnounce(s.groups[g]) && #[trigger] opening[j]
                        == s.have_payload(peer, SyncScope::Group(g))
            &&& forall|i: int|
                0 <= i < opening.len() ==> {
                    let payload = #[trigger] opening[i];
                    ||| payload == PayloadModel::Profile(profile)
                    ||| payload == s.have_payload(peer, SyncScope::Direct)
                    ||| exists|g: GroupId| #[trigger]
                        shared(g) && payload == PayloadModel::GroupAnnounce(s.groups[g])
                    ||| exists|g: GroupId| #[trigger]
                        shared(g) && payload == s.have_payload(peer, SyncScope::Group(g))
                }
            &&& opening.no_duplicates()
        }),
{
    let opening = s.opening(peer, profile);
    let is_shared = |g: GroupId| s.groups.contains_key(g) && s.groups[g].members.contains(peer);
    let shared = s.shared_groups(peer);
    let n = shared.len() as int;
    shared_groups_are_complete(s, peer);
    assert(opening.len() == 2 + 2 * n);
    assert(opening[0] == PayloadModel::Profile(profile));
    assert(opening[1 + n] == s.have_payload(peer, SyncScope::Direct));
    assert forall|k: int| 0 <= k < n implies opening[1 + k] == PayloadModel::GroupAnnounce(
        s.groups[#[trigger] shared[k]],
    ) && opening[2 + n + k] == s.have_payload(peer, SyncScope::Group(shared[k])) && is_shared(
        shared[k],
    ) by {
        assert(shared.contains(shared[k]));
    }
    assert forall|g: GroupId| #[trigger] is_shared(g) implies exists|i: int, j: int|
        0 <= i < j < opening.len() && #[trigger] opening[i] == PayloadModel::GroupAnnounce(
            s.groups[g],
        ) && #[trigger] opening[j] == s.have_payload(peer, SyncScope::Group(g)) by {
        assert(shared.contains(g));
        let k = choose|k: int| 0 <= k < n && shared[k] == g;
        let i = 1 + k;
        let j = 2 + n + k;
        assert(opening[i] == PayloadModel::GroupAnnounce(s.groups[g]));
        assert(opening[j] == s.have_payload(peer, SyncScope::Group(g)));
    }
    assert forall|i: int| 0 <= i < opening.len() implies {
        let payload = #[trigger] opening[i];
        ||| payload == PayloadModel::Profile(profile)
        ||| payload == s.have_payload(peer, SyncScope::Direct)
        ||| exists|g: GroupId| #[trigger]
            is_shared(g) && payload == PayloadModel::GroupAnnounce(s.groups[g])
        ||| exists|g: GroupId| #[trigger]
            is_shared(g) && payload == s.have_payload(peer, SyncScope::Group(g))
    } by {
        if 0 < i < 1 + n {
            let g = shared[i - 1];
            assert(is_shared(g) && opening[i] == PayloadModel::GroupAnnounce(s.groups[g]));
        } else if i > 1 + n {
            let g = shared[i - 2 - n];
            assert(is_shared(g) && opening[i] == s.have_payload(peer, SyncScope::Group(g)));
        }
    }
    assert forall|i: int, j: int| 0 <= i < opening.len() && 0 <= j < opening.len() && i
        != j implies opening[i] != opening[j] by {
        if 0 < i < 1 + n {
            assert(opening[1 + (i - 1)] == PayloadModel::GroupAnnounce(s.groups[shared[i - 1]]));
        } else if i > 1 + n {
            let k = i - 2 - n;
            assert(opening[2 + n + k] == s.have_payload(peer, SyncScope::Group(shared[k])));
        }
        if 0 < j < 1 + n {
            assert(opening[1 + (j - 1)] == PayloadModel::GroupAnnounce(s.groups[shared[j - 1]]));
        } else if j > 1 + n {
            let k = j - 2 - n;
            assert(opening[2 + n + k] == s.have_payload(peer, SyncScope::Group(shared[k])));
        }
    }
}

/// What we hold in the conversation with a peer is always said after a
/// connection, whatever it is.
pub proof fn opening_says_what_is_held(
    s: StateModel,
    peer: PeerKey,
    profile: Option<SignedProfileModel>,
)
    ensures
        s.opening(peer, profile).contains(s.have_payload(peer, SyncScope::Direct)),
{
    let n = s.shared_groups(peer).len() as int;
    assert(s.opening(peer, profile)[1 + n] == s.have_payload(peer, SyncScope::Direct));
}

/// A connection brings a peer everything that we hold of the conversation with
/// it, whatever it held before. What it says after the connection is answered,
/// and with the answer it holds every message and every reaction of both sides
/// and no watermark that is behind ours; what it held itself stays.
pub proof fn connection_heals(
    sender: StateModel,
    receiver: StateModel,
    x: PeerKey,
    y: PeerKey,
    profile: Option<SignedProfileModel>,
    now: u64,
)
    requires
        kept(sender.conversations, y).wf(),
        kept(receiver.conversations, x).wf(),
    ensures
        ({
            let a = kept(sender.conversations, y);
            let b = kept(receiver.conversations, x);
            exists|told: PayloadModel, answer: PayloadModel| #[trigger]
                receiver.opening(x, profile).contains(told) && sender.payload_actions(
                    x,
                    y,
                    told,
                ).contains(#[trigger] sending(y, answer)) && {
                    let healed = receiver.after_payload(y, x, answer, now);
                    let c = healed.conversations[x];
                    &&& healed.conversations.contains_key(x)
                    &&& forall|id: MessageId| #[trigger]
                        c.messages.contains_key(id) <==> a.messages.contains_key(id)
                            || b.messages.contains_key(id)
                    &&& forall|id: MessageId|
                        b.messages.contains_key(id) ==> #[trigger] c.messages[id] == b.messages[id]
                    &&& forall|id: MessageId|
                        a.messages.contains_key(id) && !b.messages.contains_key(id)
                            ==> #[trigger] c.messages[id] == a.messages[id]
                    &&& forall|r: ReactionModel| #[trigger]
                        c.reactions.contains(r) <==> a.reactions.contains(r)
                            || b.reactions.contains(r)
                    &&& forall|w: AuthorId| #[trigger]
                        a.read.contains_key(w) ==> c.read.contains_key(w) && c.read[w] >= a.read[w]
                    &&& forall|w: AuthorId| #[trigger]
                        b.read.contains_key(w) ==> c.read.contains_key(w) && c.read[w] >= b.read[w]
                }
        }),
{
    let a = kept(sender.conversations, y);
    let b = kept(receiver.conversations, x);
    assert(a =~= sender.convo(y));
    assert(b =~= receiver.convo(x));
    let told = receiver.have_payload(x, SyncScope::Direct);
    let answer = sender.delta_for(y, SyncScope::Direct, b.messages.dom());
    opening_says_what_is_held(receiver, x, profile);
    in_order_exists(b.messages.dom());
    let acts = sender.payload_actions(x, y, told);
    assert(acts.last() == sending(y, answer));
    assert(acts.contains(sending(y, answer)));
    let d = a.delta(b.messages.dom());
    let rs = reactions_in_order(a.reactions);
    let marks = a.marks();
    let c = after_delta(b, d, rs, marks);
    assert(receiver.after_payload(y, x, answer, now).conversations[x] == c);
    delta_heals(a, b);
    marked_all_content(b.applied_all(d).reacted_all(rs), marks);
    assert(c.messages == a.messages.union_prefer_right(b.messages));
    delta_is_merged(b, d, rs, marks);
    crate::convergence::snapshot_round_trip(a);
    crate::effects::snapshot_brings_everything_back(a.by_id(a.messages.dom()), rs, marks);
    crate::effects::marks_are_complete(a);
    assert forall|w: AuthorId| #[trigger] a.read.contains_key(w) implies c.read.contains_key(w)
        && c.read[w] >= a.read[w] by {
        assert(marks.contains((w, a.read[w])));
        let i = choose|i: int| 0 <= i < marks.len() && marks[i] == (w, a.read[w]);
        assert(c.read.contains_key(marks[i].0));
    }
    assert(receiver.opening(x, profile).contains(told) && sender.payload_actions(x, y, told).contains(
        sending(y, answer),
    ));
}

/// A message that we hold in the conversation with a peer, and that the peer
/// lacks, reaches it with the next connection: the peer says what it holds, the
/// answer holds the message, and with the answer the peer holds it too.
pub proof fn direct_message_heals(
    sender: StateModel,
    receiver: StateModel,
    x: PeerKey,
    y: PeerKey,
    m: Message,
    profile: Option<SignedProfileModel>,
    now: u64,
)
    requires
        sender.conversations.contains_key(y),
        sender.conversations[y].wf(),
        sender.conversations[y].messages.contains_key(m.id),
        sender.conversations[y].messages[m.id] == m,
        kept(receiver.conversations, x).wf(),
        !kept(receiver.conversations, x).messages.contains_key(m.id),
    ensures
        ({
            let told = receiver.have_payload(x, SyncScope::Direct);
            let answer = sender.delta_for(
                y,
                SyncScope::Direct,
                kept(receiver.conversations, x).messages.dom(),
            );
            let healed = receiver.after_payload(y, x, answer, now);
            &&& receiver.opening(x, profile).contains(told)
            &&& sender.payload_actions(x, y, told).contains(sending(y, answer))
            &&& healed.conversations.contains_key(x)
            &&& healed.conversations[x].messages.contains_key(m.id)
            &&& healed.conversations[x].messages[m.id] == m
        }),
{
    let b = kept(receiver.conversations, x);
    assert(b =~= receiver.convo(x));
    assert(sender.convo(y) == sender.conversations[y]);
    opening_says_what_is_held(receiver, x, profile);
    in_order_exists(b.messages.dom());
    let told = receiver.have_payload(x, SyncScope::Direct);
    let answer = sender.delta_for(y, SyncScope::Direct, b.messages.dom());
    let acts = sender.payload_actions(x, y, told);
    assert(acts.last() == sending(y, answer));
    crate::laws::queued_message_heals(sender, receiver, x, y, m, now);
}

/// After a connection both sides hold the same messages of their conversation,
/// and where they agree on what stands under an id, the same history.
pub proof fn connection_converges(a: StateModel, b: StateModel, x: PeerKey, y: PeerKey, now: u64)
    requires
        kept(a.conversations, y).wf(),
        kept(b.conversations, x).wf(),
    ensures
        ({
            let ca = kept(a.conversations, y);
            let cb = kept(b.conversations, x);
            let from_a = a.delta_for(y, SyncScope::Direct, cb.messages.dom());
            let from_b = b.delta_for(x, SyncScope::Direct, ca.messages.dom());
            let da = a.after_payload(x, y, from_b, now).conversations[y];
            let db = b.after_payload(y, x, from_a, now).conversations[x];
            &&& da.messages.dom() == db.messages.dom()
            &&& da.reactions == db.reactions
            &&& crate::convergence::replicas_agree(ca, cb) ==> da.ordered() == db.ordered()
        }),
{
    let ca = kept(a.conversations, y);
    let cb = kept(b.conversations, x);
    assert(ca =~= a.convo(y));
    assert(cb =~= b.convo(x));
    crate::convergence::delta_exchange_converges(ca, cb);
    let ra = reactions_in_order(ca.reactions);
    let rb = reactions_in_order(cb.reactions);
    let da = after_delta(ca, cb.delta(ca.messages.dom()), rb, cb.marks());
    let db = after_delta(cb, ca.delta(cb.messages.dom()), ra, ca.marks());
    marked_all_content(ca.applied_all(cb.delta(ca.messages.dom())).reacted_all(rb), cb.marks());
    marked_all_content(cb.applied_all(ca.delta(cb.messages.dom())).reacted_all(ra), ca.marks());
    delta_is_merged(ca, cb.delta(ca.messages.dom()), rb, cb.marks());
    delta_is_merged(cb, ca.delta(cb.messages.dom()), ra, ca.marks());
    crate::convergence::snapshot_round_trip(ca);
    crate::convergence::snapshot_round_trip(cb);
    crate::effects::snapshot_brings_everything_back(ca.by_id(ca.messages.dom()), ra, ca.marks());
    crate::effects::snapshot_brings_everything_back(cb.by_id(cb.messages.dom()), rb, cb.marks());
    assert(da.reactions =~= db.reactions);
}

} // verus!
