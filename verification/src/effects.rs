//! What each operation on a conversation leaves behind, part by part.

#[allow(unused_imports)]
use crate::bytes::lex_lt;
#[allow(unused_imports)]
use crate::conversation::{message_order, Conversation, ConversationModel, Snapshot};
#[allow(unused_imports)]
use crate::convergence::{
    applied_all_content, authored_sorts_last, clock_over_exists, clock_over_marks_bounds,
    delta_content, in_order_exists, marked_all_content, ordered_exists, snapshot_round_trip,
};
#[allow(unused_imports)]
use crate::keyed::{in_order, ByteSet};
#[allow(unused_imports)]
use crate::order::{filter_content, items};
#[allow(unused_imports)]
use crate::protocol::PeerKey;
#[allow(unused_imports)]
use crate::queries::{is_snapshot_of, unread_by, unread_count};
#[allow(unused_imports)]
use crate::sending::last_time;
#[allow(unused_imports)]
use crate::sync::{AuthorId, Message, MessageId, Reaction, ReactionModel};
use vstd::prelude::*;

verus! {

/// A received message is held under its id, whatever time it bears. One that
/// stood there before stays, no other message is touched, and the clock is
/// behind neither.
pub proof fn received_message_stays(c: ConversationModel, m: Message)
    ensures
        c.applied(m).messages.contains_key(m.id),
        c.applied(m).messages[m.id] == (if c.messages.contains_key(m.id) {
            c.messages[m.id]
        } else {
            m
        }),
        forall|id: MessageId|
            id != m.id ==> #[trigger] c.applied(m).messages.contains_key(id)
                == c.messages.contains_key(id),
        forall|id: MessageId|
            id != m.id && c.messages.contains_key(id) ==> #[trigger] c.applied(m).messages[id]
                == c.messages[id],
        c.applied(m).lamport >= c.lamport,
        c.applied(m).lamport >= m.lamport,
        c.applied(m).lamport == c.lamport || c.applied(m).lamport == m.lamport,
        c.applied(m).reactions == c.reactions,
        c.applied(m).read == c.read,
{
}

/// A message of our own is held under its id, no other message is touched, and
/// it sets the clock.
pub proof fn own_message_stays(c: ConversationModel, m: Message)
    ensures
        c.authored(m).messages.contains_key(m.id),
        c.authored(m).messages[m.id] == m,
        forall|id: MessageId|
            id != m.id ==> #[trigger] c.authored(m).messages.contains_key(id)
                == c.messages.contains_key(id),
        forall|id: MessageId|
            id != m.id && c.messages.contains_key(id) ==> #[trigger] c.authored(m).messages[id]
                == c.messages[id],
        c.authored(m).lamport == m.lamport,
        c.authored(m).reactions == c.reactions,
        c.authored(m).read == c.read,
{
}

/// A conversation keeps its form whatever is received, and with a message of
/// our own that is later than all others.
pub proof fn form_is_kept(
    c: ConversationModel,
    m: Message,
    r: ReactionModel,
    author: AuthorId,
    up_to: u64,
)
    requires
        c.wf(),
    ensures
        c.applied(m).wf(),
        m.lamport > c.lamport ==> c.authored(m).wf(),
        c.reacted(r).wf(),
        c.marked(author, up_to).wf(),
{
}

/// Every reaction that is made is held, none is lost, and nothing else changes.
pub proof fn reactions_stay(c: ConversationModel, r: ReactionModel, rs: Seq<ReactionModel>)
    ensures
        forall|x: ReactionModel| #[trigger]
            c.reacted(r).reactions.contains(x) <==> x == r || c.reactions.contains(x),
        c.reacted(r).messages == c.messages,
        c.reacted(r).read == c.read,
        c.reacted(r).lamport == c.lamport,
        forall|x: ReactionModel| #[trigger]
            c.reacted_all(rs).reactions.contains(x) <==> rs.contains(x) || c.reactions.contains(x),
        c.reacted_all(rs).messages == c.messages,
        c.reacted_all(rs).read == c.read,
        c.reacted_all(rs).lamport == c.lamport,
{
}

/// A read mark raises the watermark of its author to its time and never lowers
/// it; it touches nothing else.
pub proof fn read_mark_stays(c: ConversationModel, author: AuthorId, up_to: u64)
    ensures
        c.marked(author, up_to).read.contains_key(author),
        c.marked(author, up_to).read[author] >= up_to,
        c.read.contains_key(author) ==> c.marked(author, up_to).read[author] >= c.read[author],
        c.marked(author, up_to).read[author] == up_to || c.read.contains_key(author) && c.marked(
            author,
            up_to,
        ).read[author] == c.read[author],
        c.marked(author, up_to).watermark(author) == c.marked(author, up_to).read[author],
        forall|a: AuthorId|
            a != author ==> #[trigger] c.marked(author, up_to).read.contains_key(a)
                == c.read.contains_key(a),
        forall|a: AuthorId|
            a != author && c.read.contains_key(a) ==> #[trigger] c.marked(author, up_to).read[a]
                == c.read[a],
        forall|a: AuthorId|
            !c.read.contains_key(a) ==> #[trigger] c.watermark(a) == 0,
        c.marked(author, up_to).messages == c.messages,
        c.marked(author, up_to).reactions == c.reactions,
        c.marked(author, up_to).lamport == c.lamport,
{
}

/// After a merge each side's messages, reactions and watermarks are there and
/// nothing else is. Under an id that both hold our own message stays, and the
/// clock is behind no message.
pub proof fn merge_holds_both(a: ConversationModel, b: ConversationModel)
    requires
        a.wf(),
        b.wf(),
    ensures
        forall|id: MessageId| #[trigger]
            a.merged(b).messages.contains_key(id) <==> a.messages.contains_key(id)
                || b.messages.contains_key(id),
        forall|id: MessageId|
            a.messages.contains_key(id) ==> #[trigger] a.merged(b).messages[id] == a.messages[id],
        forall|id: MessageId|
            b.messages.contains_key(id) && !a.messages.contains_key(id)
                ==> #[trigger] a.merged(b).messages[id] == b.messages[id],
        forall|r: ReactionModel| #[trigger]
            a.merged(b).reactions.contains(r) <==> a.reactions.contains(r)
                || b.reactions.contains(r),
        forall|x: AuthorId| #[trigger]
            a.merged(b).read.contains_key(x) <==> a.read.contains_key(x) || b.read.contains_key(x),
        forall|x: AuthorId|
            a.read.contains_key(x) ==> #[trigger] a.merged(b).read[x] >= a.read[x],
        forall|x: AuthorId|
            b.read.contains_key(x) ==> #[trigger] a.merged(b).read[x] >= b.read[x],
        forall|x: AuthorId| #[trigger]
            a.merged(b).read.contains_key(x) ==> (a.read.contains_key(x) && a.merged(b).read[x]
                == a.read[x]) || (b.read.contains_key(x) && a.merged(b).read[x] == b.read[x]),
        a.merged(b).lamport >= a.lamport,
        forall|id: MessageId| #[trigger]
            b.messages.contains_key(id) ==> a.merged(b).lamport >= b.messages[id].lamport,
        a.merged(b).lamport == a.lamport || exists|id: MessageId| #[trigger]
            b.messages.contains_key(id) && a.merged(b).lamport == b.messages[id].lamport,
{
    clock_over_exists(a.lamport, b.messages);
}

/// The history of a conversation lists every message once, and nothing else. An
/// earlier one stands before a later one; of two with the same time, that of the
/// smaller author, and of one author, that with the smaller id.
pub proof fn history_is_complete_and_causal(c: ConversationModel)
    requires
        c.wf(),
    ensures
        c.ordered().len() == c.messages.len(),
        c.ordered().no_duplicates(),
        forall|id: MessageId| #[trigger]
            c.messages.contains_key(id) ==> c.ordered().contains(c.messages[id]),
        forall|i: int|
            0 <= i < c.ordered().len() ==> c.messages.contains_key((#[trigger] c.ordered()[i]).id)
                && c.messages[c.ordered()[i].id] == c.ordered()[i],
        forall|i: int, j: int|
            0 <= i < j < c.ordered().len() ==> {
                let a = #[trigger] c.ordered()[i];
                let b = #[trigger] c.ordered()[j];
                &&& a.lamport <= b.lamport
                &&& a.lamport == b.lamport ==> a.author == b.author || lex_lt(a.author@, b.author@)
                &&& a.lamport == b.lamport && a.author == b.author ==> lex_lt(a.id@, b.id@)
            },
{
    ordered_exists(c);
    let o = c.ordered();
    assert forall|id: MessageId| #[trigger] c.messages.contains_key(id) implies o.contains(
        c.messages[id],
    ) by {
        assert(c.messages.values().contains(c.messages[id]));
        assert(o.to_set().contains(c.messages[id]));
    }
    assert forall|i: int| 0 <= i < o.len() implies c.messages.contains_key((#[trigger] o[i]).id)
        && c.messages[o[i].id] == o[i] by {
        assert(o.to_set().contains(o[i]));
        let id = choose|id: MessageId| #[trigger]
            c.messages.contains_key(id) && c.messages[id] == o[i];
        assert(c.messages[id].id == id);
    }
    assert forall|i: int, j: int| 0 <= i < j < o.len() implies {
        let a = #[trigger] o[i];
        let b = #[trigger] o[j];
        &&& a.lamport <= b.lamport
        &&& a.lamport == b.lamport ==> a.author == b.author || lex_lt(a.author@, b.author@)
        &&& a.lamport == b.lamport && a.author == b.author ==> lex_lt(a.id@, b.id@)
    } by {
        assert(message_order()(o[i], o[j]));
    }
    let ids = o.map_values(|m: Message| m.id);
    assert forall|i: int, j: int| 0 <= i < ids.len() && 0 <= j < ids.len() && i != j implies ids[i]
        != ids[j] by {
        if ids[i] == ids[j] {
            assert(c.messages[o[i].id] == o[i] && c.messages[o[j].id] == o[j]);
            assert(o[i] == o[j]);
        }
    }
    assert forall|id: MessageId| ids.to_set().contains(id) == c.messages.dom().contains(id) by {
        if ids.contains(id) {
            let i = choose|i: int| 0 <= i < ids.len() && ids[i] == id;
            assert(c.messages.contains_key(o[i].id));
        }
        if c.messages.contains_key(id) {
            let i = choose|i: int| 0 <= i < o.len() && o[i] == c.messages[id];
            assert(ids[i] == id);
        }
    }
    assert(ids.to_set() =~= c.messages.dom());
    ids.unique_seq_to_set();
}

/// A delta holds every message that the other side lacks, each once, and no
/// message that the other side has.
pub proof fn delta_holds_what_is_missing(c: ConversationModel, have: Set<MessageId>)
    requires
        c.wf(),
    ensures
        c.delta(have).no_duplicates(),
        c.delta(have).len() == c.messages.dom().difference(have).len(),
        forall|m: Message| #[trigger]
            c.delta(have).contains(m) <==> c.messages.contains_key(m.id) && c.messages[m.id] == m
                && !have.contains(m.id),
{
    delta_content(c, have);
    let missing = c.messages.dom().difference(have);
    in_order_exists(missing);
    let ids = in_order(missing);
    crate::keyed::ascending_is_in_order(ids);
    let d = c.delta(have);
    assert forall|i: int, j: int| 0 <= i < d.len() && 0 <= j < d.len() && i != j implies d[i]
        != d[j] by {
        assert(ids[i] != ids[j]);
        assert(ids.to_set().contains(ids[i]) && ids.to_set().contains(ids[j]));
        assert(c.messages[ids[i]].id == ids[i] && c.messages[ids[j]].id == ids[j]);
    }
    assert forall|m: Message| #[trigger] d.contains(m) <==> c.messages.contains_key(m.id)
        && c.messages[m.id] == m && !have.contains(m.id) by {
        if c.messages.contains_key(m.id) && c.messages[m.id] == m && !have.contains(m.id) {
            let i = choose|i: int|
                0 <= i < d.len() && (#[trigger] d[i]).id == m.id && d[i] == c.messages[m.id];
            assert(d[i] == m);
        }
    }
}

/// The list of watermarks holds each of them once, and nothing else.
pub proof fn marks_are_complete(c: ConversationModel)
    requires
        c.wf(),
    ensures
        c.marks().no_duplicates(),
        c.marks().len() == c.read.len(),
        forall|a: AuthorId, t: u64| #[trigger]
            c.marks().contains((a, t)) <==> c.read.contains_key(a) && c.read[a] == t,
{
    in_order_exists(c.read.dom());
    let ids = in_order(c.read.dom());
    crate::keyed::ascending_is_in_order(ids);
    let marks = c.marks();
    assert forall|a: AuthorId, t: u64| #[trigger] marks.contains((a, t)) <==> c.read.contains_key(a)
        && c.read[a] == t by {
        if marks.contains((a, t)) {
            let i = choose|i: int| 0 <= i < marks.len() && marks[i] == (a, t);
            assert(ids.to_set().contains(ids[i]));
        }
        if c.read.contains_key(a) && c.read[a] == t {
            assert(ids.to_set().contains(a));
            let i = choose|i: int| 0 <= i < ids.len() && ids[i] == a;
            assert(marks[i] == (a, t));
        }
    }
}

/// A snapshot brings back all its messages, reactions and watermarks, and
/// nothing else; the clock resumes at the latest time that is seen in it.
pub proof fn snapshot_brings_everything_back(
    messages: Seq<Message>,
    reactions: Seq<ReactionModel>,
    read: Seq<(AuthorId, u64)>,
)
    ensures
        ({
            let c = ConversationModel::restored(messages, reactions, read);
            &&& forall|i: int|
                0 <= i < messages.len() ==> c.messages.contains_key((#[trigger] messages[i]).id)
            &&& forall|id: MessageId| #[trigger]
                c.messages.contains_key(id) ==> messages.contains(c.messages[id])
                    && c.messages[id].id == id
            &&& forall|r: ReactionModel| #[trigger]
                c.reactions.contains(r) <==> reactions.contains(r)
            &&& forall|i: int|
                0 <= i < read.len() ==> c.read.contains_key((#[trigger] read[i]).0)
                    && c.read[read[i].0] >= read[i].1
            &&& forall|a: AuthorId| #[trigger]
                c.read.contains_key(a) ==> exists|i: int|
                    0 <= i < read.len() && (#[trigger] read[i]).0 == a
            &&& forall|i: int| 0 <= i < messages.len() ==> c.lamport >= (#[trigger] messages[i]).lamport
            &&& forall|i: int| 0 <= i < read.len() ==> c.lamport >= (#[trigger] read[i]).1
            &&& c.lamport == 0 || (exists|i: int|
                0 <= i < messages.len() && c.lamport == (#[trigger] messages[i]).lamport) || (exists|
                i: int,
            |
                0 <= i < read.len() && c.lamport == (#[trigger] read[i]).1)
        }),
{
    let e = ConversationModel::empty();
    let a = e.applied_all(messages);
    let b = a.reacted_all(reactions);
    let d = b.marked_all(read);
    let c = ConversationModel::restored(messages, reactions, read);
    applied_all_content(e, messages);
    marked_all_content(b, read);
    clock_over_marks_bounds(d.lamport, read);
    assert(c.messages == a.messages && c.read == d.read);
    assert forall|i: int| 0 <= i < messages.len() implies c.messages.contains_key(
        (#[trigger] messages[i]).id,
    ) by {
        assert(a.messages.contains_key(messages[i].id));
    }
    assert forall|id: MessageId| #[trigger] c.messages.contains_key(id) implies messages.contains(
        c.messages[id],
    ) && c.messages[id].id == id by {
        assert(a.messages.contains_key(id));
    }
    assert forall|i: int| 0 <= i < read.len() implies c.read.contains_key((#[trigger] read[i]).0)
        && c.read[read[i].0] >= read[i].1 by {
        assert(d.read.contains_key(read[i].0));
        assert(d.watermark(read[i].0) >= read[i].1);
    }
    assert forall|a: AuthorId| #[trigger] c.read.contains_key(a) implies exists|i: int|
        0 <= i < read.len() && (#[trigger] read[i]).0 == a by {
        assert(d.read.contains_key(a));
    }
}

/// What is stored of a conversation restores it: every message, every reaction
/// and every watermark, and the same history.
pub proof fn stored_conversation_is_restored(s: Snapshot, c: ConversationModel)
    requires
        c.wf(),
        is_snapshot_of(s, c),
    ensures
        s.restores().wf(),
        s.restores().messages == c.messages,
        s.restores().reactions == c.reactions,
        s.restores().read == c.read,
        s.restores().ordered() == c.ordered(),
{
    snapshot_round_trip(c);
}

/// The time of the last message is that of a message, and no message is later.
pub proof fn last_time_is_the_latest(c: ConversationModel)
    requires
        c.wf(),
    ensures
        forall|id: MessageId| #[trigger]
            c.messages.contains_key(id) ==> c.messages[id].lamport <= last_time(c),
        last_time(c) <= c.lamport,
        c.messages.len() == 0 ==> last_time(c) == 0,
        c.messages.len() > 0 ==> exists|id: MessageId| #[trigger]
            c.messages.contains_key(id) && c.messages[id].lamport == last_time(c),
{
    history_is_complete_and_causal(c);
    let o = c.ordered();
    assert forall|id: MessageId| #[trigger] c.messages.contains_key(id) implies c.messages[id].lamport
        <= last_time(c) by {
        let i = choose|i: int| 0 <= i < o.len() && o[i] == c.messages[id];
        if i < o.len() - 1 {
            assert(o[i].lamport <= o[o.len() - 1].lamport);
        }
    }
    if o.len() > 0 {
        assert(c.messages.contains_key(o[o.len() - 1].id));
    }
}

/// The messages of others that are later than our own watermark.
pub open spec fn unread_ids(c: ConversationModel, me: PeerKey) -> Set<MessageId> {
    c.messages.dom().filter(
        |id: MessageId|
            c.messages[id].author != me && (c.read.contains_key(me) ==> c.messages[id].lamport
                > c.read[me]) && c.messages[id].lamport > 0,
    )
}

/// The unread count is the number of messages of others that are later than our
/// own watermark.
pub proof fn unread_count_is_exact(c: ConversationModel, me: PeerKey)
    requires
        c.wf(),
    ensures
        unread_count(c, me) == unread_ids(c, me).len(),
{
    history_is_complete_and_causal(c);
    let o = c.ordered();
    let pred = unread_by(c, me);
    let f = o.filter(pred);
    filter_content(o, pred);
    let ids = f.map_values(|m: Message| m.id);
    assert forall|i: int| 0 <= i < f.len() implies c.messages.contains_key((#[trigger] f[i]).id)
        && c.messages[f[i].id] == f[i] && pred(f[i]) by {
        assert(f.contains(f[i]));
        let j = choose|j: int| 0 <= j < o.len() && o[j] == f[i];
        assert(c.messages[o[j].id] == o[j]);
    }
    assert forall|i: int, j: int| 0 <= i < ids.len() && 0 <= j < ids.len() && i != j implies ids[i]
        != ids[j] by {
        if ids[i] == ids[j] {
            assert(c.messages[f[i].id] == f[i] && c.messages[f[j].id] == f[j]);
            assert(f[i] == f[j]);
        }
    }
    let unread = unread_ids(c, me);
    assert forall|id: MessageId| ids.to_set().contains(id) == unread.contains(id) by {
        if ids.contains(id) {
            let i = choose|i: int| 0 <= i < ids.len() && ids[i] == id;
            assert(pred(f[i]));
        }
        if unread.contains(id) {
            let m = c.messages[id];
            assert(o.contains(m) && pred(m));
            assert(f.contains(m));
            let i = choose|i: int| 0 <= i < f.len() && f[i] == m;
            assert(ids[i] == id);
        }
    }
    assert(ids.to_set() =~= unread);
    ids.unique_seq_to_set();
}

/// A new message of somebody else that is later than our own watermark raises
/// the unread count by exactly one, wherever the watermark is. One of our own,
/// one that we have read, and one that we hold already do not change it.
pub proof fn new_message_is_unread(c: ConversationModel, me: PeerKey, m: Message)
    requires
        c.wf(),
    ensures
        ({
            let news = !c.messages.contains_key(m.id) && m.author != me && m.lamport > c.watermark(
                me,
            );
            unread_count(c.applied(m), me) == unread_count(c, me) + if news {
                1nat
            } else {
                0
            }
        }),
{
    let d = c.applied(m);
    unread_count_is_exact(c, me);
    unread_count_is_exact(d, me);
    let before = unread_ids(c, me);
    let after = unread_ids(d, me);
    if !c.messages.contains_key(m.id) && m.author != me && m.lamport > c.watermark(me) {
        assert(after =~= before.insert(m.id));
        assert(!before.contains(m.id));
    } else {
        assert(after =~= before);
    }
}

/// Each of a run of new messages of others, later than our own watermark,
/// raises the unread count by one.
pub proof fn new_messages_are_unread(c: ConversationModel, me: PeerKey, ms: Seq<Message>)
    requires
        c.wf(),
        forall|i: int, j: int| 0 <= i < j < ms.len() ==> (#[trigger] ms[i]).id != (#[trigger] ms[j]).id,
        forall|i: int|
            0 <= i < ms.len() ==> !c.messages.contains_key((#[trigger] ms[i]).id) && ms[i].author
                != me && ms[i].lamport > c.watermark(me),
    ensures
        c.applied_all(ms).wf(),
        c.applied_all(ms).read == c.read,
        unread_count(c.applied_all(ms), me) == unread_count(c, me) + ms.len(),
    decreases ms.len(),
{
    if ms.len() > 0 {
        let init = ms.drop_last();
        let n = ms.len() - 1;
        assert forall|i: int| 0 <= i < init.len() implies !c.messages.contains_key(
            (#[trigger] init[i]).id,
        ) && init[i].author != me && init[i].lamport > c.watermark(me) by {
            assert(init[i] == ms[i]);
        }
        assert forall|i: int, j: int| 0 <= i < j < init.len() implies (#[trigger] init[i]).id != (
        #[trigger] init[j]).id by {
            assert(ms[i].id != ms[j].id);
        }
        new_messages_are_unread(c, me, init);
        applied_all_content(c, init);
        let d = c.applied_all(init);
        assert(!d.messages.contains_key(ms[n].id)) by {
            if d.messages.contains_key(ms[n].id) {
                let i = choose|i: int| 0 <= i < init.len() && (#[trigger] init[i]).id == ms[n].id;
                assert(ms[i].id != ms[n].id);
            }
        }
        new_message_is_unread(d, me, ms[n]);
    }
}

/// After the whole conversation was marked as read, exactly the new later
/// messages of others are unread.
pub proof fn unread_counts_from_the_mark(c: ConversationModel, me: PeerKey, ms: Seq<Message>)
    requires
        c.wf(),
        forall|i: int, j: int| 0 <= i < j < ms.len() ==> (#[trigger] ms[i]).id != (#[trigger] ms[j]).id,
        forall|i: int|
            0 <= i < ms.len() ==> !c.messages.contains_key((#[trigger] ms[i]).id) && ms[i].author
                != me && ms[i].lamport > last_time(c) && ms[i].lamport > c.watermark(me),
    ensures
        unread_count(c.marked(me, last_time(c)).applied_all(ms), me) == ms.len(),
{
    crate::laws::marking_read_leaves_nothing_unread(c, me);
    new_messages_are_unread(c.marked(me, last_time(c)), me, ms);
}

/// A text that was written is read back under its id, and so is everything that
/// was held before; it is the last in the history.
pub proof fn written_text_is_read_back(
    written: &mut Conversation,
    read: &Conversation,
    author: AuthorId,
    sent_at: u64,
    body: &str,
    m: Message,
    found: Option<&Message>,
    history: Vec<&Message>,
)
    requires
        old(written)@.wf(),
        old(written)@.lamport < u64::MAX,
        !old(written)@.messages.contains_key(m.id),
        call_ensures(Conversation::create_text, (written, author, sent_at, body), m),
        read@ == final(written)@,
        call_ensures(Conversation::message, (read, &m.id), found),
        call_ensures(Conversation::messages_ordered, (read,), history),
    ensures
        found is Some,
        *found->0 == m,
        m.author == author,
        m.sent_at == sent_at,
        m.body@ == body@,
        history@.len() == old(written)@.messages.len() + 1,
        *history@.last() == m,
{
    let c = old(written)@;
    authored_sorts_last(c, m);
    history_is_complete_and_causal(c);
    assert(items(history@).len() == history@.len());
    assert(items(history@).last() == *history@.last());
}

/// A message that was received is held: it is found under its id, its id is among
/// those that are held, and it is in no delta for whoever holds what we hold.
pub proof fn applied_message_is_read_back(
    written: &mut Conversation,
    read: &Conversation,
    m: Message,
    found: Option<&Message>,
    held: ByteSet<16>,
    missing: Vec<Message>,
)
    requires
        call_ensures(Conversation::apply, (written, m), ()),
        read@ == final(written)@,
        read@.wf(),
        call_ensures(Conversation::message, (read, &m.id), found),
        call_ensures(Conversation::have, (read,), held),
        call_ensures(Conversation::delta_since, (read, &held), missing),
    ensures
        found is Some,
        !old(written)@.messages.contains_key(m.id) ==> *found->0 == m,
        held@.contains(m.id),
        forall|id: MessageId| #[trigger]
            old(written)@.messages.contains_key(id) ==> held@.contains(id),
        missing@.len() == 0,
{
    delta_holds_what_is_missing(read@, held@);
    assert(read@.messages.dom().difference(held@) =~= Set::<MessageId>::empty());
}

/// A reaction that was made is among those to its message, and among those to no
/// other.
pub proof fn reaction_is_read_back(
    written: &mut Conversation,
    read: &Conversation,
    message: MessageId,
    author: AuthorId,
    emoji: &str,
    other: MessageId,
    found: Vec<&Reaction>,
    elsewhere: Vec<&Reaction>,
)
    requires
        call_ensures(Conversation::react, (written, message, author, emoji), ()),
        read@ == final(written)@,
        other != message,
        call_ensures(Conversation::reactions_for, (read, &message), found),
        call_ensures(Conversation::reactions_for, (read, &other), elsewhere),
    ensures
        exists|i: int|
            0 <= i < found@.len() && (#[trigger] found@[i]).author == author && found@[i].emoji@
                == emoji@ && found@[i].message == message,
        forall|i: int| 0 <= i < found@.len() ==> (#[trigger] found@[i]).message == message,
        forall|i: int| 0 <= i < elsewhere@.len() ==> (#[trigger] elsewhere@[i]).message == other,
{
    let x = ReactionModel { message, author, emoji: emoji@ };
    let view = |r: &Reaction| r@;
    let a = found@.map_values(view);
    let b = elsewhere@.map_values(view);
    assert(a.to_set().contains(x));
    let i = choose|i: int| 0 <= i < a.len() && a[i] == x;
    assert(found@[i]@ == x);
    assert forall|i: int| 0 <= i < found@.len() implies (#[trigger] found@[i]).message == message by {
        assert(a[i] == found@[i]@);
        assert(a.to_set().contains(a[i]));
    }
    assert forall|i: int| 0 <= i < elsewhere@.len() implies (#[trigger] elsewhere@[i]).message
        == other by {
        assert(b[i] == elsewhere@[i]@);
        assert(b.to_set().contains(b[i]));
    }
}

/// A read mark that was made is read back, and a lower one does not take it back.
pub proof fn read_mark_is_read_back(
    first: &mut Conversation,
    second: &mut Conversation,
    read: &Conversation,
    author: AuthorId,
    up_to: u64,
    again: u64,
    found: u64,
)
    requires
        call_ensures(Conversation::mark_read, (first, author, up_to), ()),
        old(second)@ == final(first)@,
        call_ensures(Conversation::mark_read, (second, author, again), ()),
        read@ == final(second)@,
        call_ensures(Conversation::read_watermark, (read, &author), found),
    ensures
        found >= up_to,
        found >= again,
        old(first)@.read.contains_key(author) ==> found >= old(first)@.read[author],
        found == up_to || found == again || old(first)@.read.contains_key(author) && found == old(
            first,
        )@.read[author],
{
}

} // verus!
