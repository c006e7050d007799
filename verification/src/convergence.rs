//! What holds of conversations whatever the order in which replicas hear of
//! things.

use crate::bytes::{lex_lt, lex_total, lex_transitive};
use crate::conversation::{
    clock_over, clock_over_unique, is_clock_over, max_of, message_lt_transitive, message_order,
    message_order_asymmetric, ConversationModel,
};
use crate::keyed::{ascending, in_order, key_order, key_order_asymmetric};
use crate::order::{
    sorted_is_sorted_members, sorted_members_exist, strictly_sorted, total_on, transitive,
};
use crate::sync::{
    reaction_order, reaction_order_asymmetric, reaction_order_is_total, reactions_in_order,
    AuthorId, Message, MessageId, ReactionModel,
};
use vstd::prelude::*;

verus! {

/// No two of the messages differ under one id.
pub open spec fn agree(ms: Seq<Message>) -> bool {
    forall|i: int, j: int|
        0 <= i < ms.len() && 0 <= j < ms.len() && (#[trigger] ms[i]).id == (#[trigger] ms[j]).id
            ==> ms[i] == ms[j]
}

/// Under the ids that both hold, two replicas hold the same messages.
pub open spec fn replicas_agree(a: ConversationModel, b: ConversationModel) -> bool {
    forall|id: MessageId| #[trigger]
        a.messages.contains_key(id) && #[trigger] b.messages.contains_key(id) ==> a.messages[id]
            == b.messages[id]
}

/// Applying a message a second time changes nothing.
pub proof fn apply_is_idempotent(s: ConversationModel, m: Message)
    ensures
        s.applied(m).applied(m) == s.applied(m),
{
    assert(s.applied(m).applied(m) =~= s.applied(m));
}

/// Two different messages can be applied in either order.
pub proof fn apply_commutes(s: ConversationModel, a: Message, b: Message)
    requires
        a.id == b.id ==> a == b,
    ensures
        s.applied(a).applied(b) == s.applied(b).applied(a),
{
    assert(s.applied(a).applied(b) =~= s.applied(b).applied(a));
}

/// What a run of messages leaves behind.
pub proof fn applied_all_content(s: ConversationModel, ms: Seq<Message>)
    ensures
        s.applied_all(ms).reactions == s.reactions,
        s.applied_all(ms).read == s.read,
        forall|id: MessageId| #[trigger]
            s.applied_all(ms).messages.contains_key(id) <==> s.messages.contains_key(id) || exists|
                i: int,
            | 0 <= i < ms.len() && (#[trigger] ms[i]).id == id,
        forall|id: MessageId|
            s.messages.contains_key(id) ==> #[trigger] s.applied_all(ms).messages[id]
                == s.messages[id],
        forall|id: MessageId| #[trigger]
            s.applied_all(ms).messages.contains_key(id) && !s.messages.contains_key(id) ==> exists|
                i: int,
            |
                0 <= i < ms.len() && (#[trigger] ms[i]).id == id && s.applied_all(ms).messages[id]
                    == ms[i],
        s.applied_all(ms).lamport >= s.lamport,
        forall|i: int|
            0 <= i < ms.len() ==> s.applied_all(ms).lamport >= (#[trigger] ms[i]).lamport,
        s.applied_all(ms).lamport == s.lamport || exists|i: int|
            0 <= i < ms.len() && s.applied_all(ms).lamport == (#[trigger] ms[i]).lamport,
    decreases ms.len(),
{
    if ms.len() > 0 {
        let init = ms.drop_last();
        let last = ms.last();
        let n = ms.len() - 1;
        applied_all_content(s, init);
        let p = s.applied_all(init);
        let q = s.applied_all(ms);
        assert(q == p.applied(last));
        assert forall|id: MessageId| #[trigger]
            q.messages.contains_key(id) <==> s.messages.contains_key(id) || exists|i: int|
                0 <= i < ms.len() && (#[trigger] ms[i]).id == id by {
            if q.messages.contains_key(id) && !s.messages.contains_key(id) {
                if p.messages.contains_key(id) {
                    let i = choose|i: int| 0 <= i < init.len() && (#[trigger] init[i]).id == id;
                    assert(ms[i].id == id);
                } else {
                    assert(ms[n].id == id);
                }
            }
            if exists|i: int| 0 <= i < ms.len() && (#[trigger] ms[i]).id == id {
                let i = choose|i: int| 0 <= i < ms.len() && (#[trigger] ms[i]).id == id;
                if i < n {
                    assert(init[i].id == id);
                    assert(p.messages.contains_key(id));
                }
            }
            assert(s.messages.contains_key(id) ==> p.messages.contains_key(id));
        }
        assert forall|id: MessageId| s.messages.contains_key(id) implies #[trigger] q.messages[id]
            == s.messages[id] by {
            assert(p.messages.contains_key(id));
            assert(p.messages[id] == s.messages[id]);
        }
        assert forall|id: MessageId| #[trigger]
            q.messages.contains_key(id) && !s.messages.contains_key(id) implies exists|i: int|
            0 <= i < ms.len() && (#[trigger] ms[i]).id == id && q.messages[id] == ms[i] by {
            if p.messages.contains_key(id) {
                let i = choose|i: int|
                    0 <= i < init.len() && (#[trigger] init[i]).id == id && p.messages[id] == init[i];
                assert(ms[i] == init[i]);
            } else {
                assert(q.messages[id] == ms[n]);
            }
        }
        assert forall|i: int| 0 <= i < ms.len() implies q.lamport >= (#[trigger] ms[i]).lamport by {
            if i < n {
                assert(init[i] == ms[i]);
            }
        }
        if q.lamport != s.lamport {
            if q.lamport == p.lamport {
                let i = choose|i: int| 0 <= i < init.len() && p.lamport == (#[trigger] init[i]).lamport;
                assert(ms[i] == init[i]);
            } else {
                assert(q.lamport == ms[n].lamport);
            }
        }
    }
}

/// Convergence: the same messages, received in any order and with any
/// duplication, lead to the same state.
pub proof fn replicas_converge(s: ConversationModel, xs: Seq<Message>, ys: Seq<Message>)
    requires
        agree(xs),
        xs.to_set() == ys.to_set(),
    ensures
        s.applied_all(xs) == s.applied_all(ys),
{
    applied_all_content(s, xs);
    applied_all_content(s, ys);
    let p = s.applied_all(xs);
    let q = s.applied_all(ys);
    assert forall|i: int| 0 <= i < xs.len() implies ys.contains(#[trigger] xs[i]) by {
        assert(xs.to_set().contains(xs[i]));
    }
    assert forall|j: int| 0 <= j < ys.len() implies xs.contains(#[trigger] ys[j]) by {
        assert(ys.to_set().contains(ys[j]));
    }
    assert forall|id: MessageId| #[trigger]
        p.messages.contains_key(id) == q.messages.contains_key(id) by {
        if p.messages.contains_key(id) && !s.messages.contains_key(id) {
            let i = choose|i: int| 0 <= i < xs.len() && (#[trigger] xs[i]).id == id;
            let j = choose|j: int| 0 <= j < ys.len() && ys[j] == xs[i];
            assert(ys[j].id == id);
        }
        if q.messages.contains_key(id) && !s.messages.contains_key(id) {
            let j = choose|j: int| 0 <= j < ys.len() && (#[trigger] ys[j]).id == id;
            let i = choose|i: int| 0 <= i < xs.len() && xs[i] == ys[j];
            assert(xs[i].id == id);
        }
    }
    assert forall|id: MessageId| #[trigger] p.messages.contains_key(id) implies p.messages[id]
        == q.messages[id] by {
        assert(q.messages.contains_key(id));
        if !s.messages.contains_key(id) {
            let i = choose|i: int|
                0 <= i < xs.len() && (#[trigger] xs[i]).id == id && p.messages[id] == xs[i];
            let j = choose|j: int|
                0 <= j < ys.len() && (#[trigger] ys[j]).id == id && q.messages[id] == ys[j];
            let k = choose|k: int| 0 <= k < xs.len() && xs[k] == ys[j];
            assert(xs[i].id == xs[k].id);
        } else {
            assert(p.messages[id] == s.messages[id]);
            assert(q.messages[id] == s.messages[id]);
        }
    }
    assert(p.messages =~= q.messages);
    assert(p.lamport == q.lamport) by {
        if p.lamport != s.lamport {
            let i = choose|i: int| 0 <= i < xs.len() && p.lamport == (#[trigger] xs[i]).lamport;
            let j = choose|j: int| 0 <= j < ys.len() && ys[j] == xs[i];
            assert(q.lamport >= ys[j].lamport);
        }
        if q.lamport != s.lamport {
            let j = choose|j: int| 0 <= j < ys.len() && q.lamport == (#[trigger] ys[j]).lamport;
            let i = choose|i: int| 0 <= i < xs.len() && xs[i] == ys[j];
            assert(p.lamport >= xs[i].lamport);
        }
    }
    assert(p =~= q);
}

/// Finitely many messages have a least clock over them.
pub proof fn clock_over_exists(start: u64, messages: Map<MessageId, Message>)
    requires
        messages.dom().finite(),
    ensures
        is_clock_over(start, messages, clock_over(start, messages)),
    decreases messages.dom().len(),
{
    if messages.dom().len() == 0 {
        assert(messages.dom() =~= Set::empty());
        assert(is_clock_over(start, messages, start));
    } else {
        let id = messages.dom().choose();
        let rest = messages.remove(id);
        clock_over_exists(start, rest);
        let c = clock_over(start, rest);
        let d = max_of(c, messages[id].lamport);
        assert forall|x: MessageId| #[trigger] messages.contains_key(x) implies d
            >= messages[x].lamport by {
            if x != id {
                assert(rest.contains_key(x));
                assert(rest[x] == messages[x]);
            }
        }
        if d != start {
            if d == c {
                let x = choose|x: MessageId| #[trigger]
                    rest.contains_key(x) && c == rest[x].lamport;
                assert(messages.contains_key(x) && d == messages[x].lamport);
            } else {
                assert(messages.contains_key(id) && d == messages[id].lamport);
            }
        }
        assert(is_clock_over(start, messages, d));
    }
}

/// Merging is commutative: two replicas that agree hold the same messages,
/// reactions and watermarks after each has merged the other. Their clocks are
/// their own; they are equal too where each clock is that of a message.
pub proof fn merge_is_commutative(a: ConversationModel, b: ConversationModel)
    requires
        a.wf(),
        b.wf(),
        replicas_agree(a, b),
    ensures
        a.merged(b).messages == b.merged(a).messages,
        a.merged(b).reactions == b.merged(a).reactions,
        a.merged(b).read == b.merged(a).read,
        is_clock_over(0, a.messages, a.lamport) && is_clock_over(0, b.messages, b.lamport)
            ==> a.merged(b) == b.merged(a),
{
    let p = a.merged(b);
    let q = b.merged(a);
    assert(p.messages =~= q.messages);
    assert(p.reactions =~= q.reactions);
    assert(p.read =~= q.read);
    clock_over_exists(a.lamport, b.messages);
    clock_over_exists(b.lamport, a.messages);
    if is_clock_over(0, a.messages, a.lamport) && is_clock_over(0, b.messages, b.lamport) {
        if p.lamport != a.lamport {
            let id = choose|id: MessageId| #[trigger]
                b.messages.contains_key(id) && p.lamport == b.messages[id].lamport;
            assert(b.lamport >= b.messages[id].lamport);
        }
        if q.lamport != b.lamport {
            let id = choose|id: MessageId| #[trigger]
                a.messages.contains_key(id) && q.lamport == a.messages[id].lamport;
            assert(a.lamport >= a.messages[id].lamport);
        }
        if a.lamport != 0 {
            let id = choose|id: MessageId| #[trigger]
                a.messages.contains_key(id) && a.lamport == a.messages[id].lamport;
            assert(q.lamport >= a.lamport);
        }
        if b.lamport != 0 {
            let id = choose|id: MessageId| #[trigger]
                b.messages.contains_key(id) && b.lamport == b.messages[id].lamport;
            assert(p.lamport >= b.lamport);
        }
        assert(p.lamport == q.lamport);
        assert(p =~= q);
    }
}

/// Merging is associative in messages, reactions and watermarks, and in the
/// clock too where the two replicas that are merged in agree.
pub proof fn merge_is_associative(
    a: ConversationModel,
    b: ConversationModel,
    c: ConversationModel,
)
    requires
        a.wf(),
        b.wf(),
        c.wf(),
    ensures
        a.merged(b).merged(c).messages == a.merged(b.merged(c)).messages,
        a.merged(b).merged(c).reactions == a.merged(b.merged(c)).reactions,
        a.merged(b).merged(c).read == a.merged(b.merged(c)).read,
        replicas_agree(b, c) ==> a.merged(b).merged(c) == a.merged(b.merged(c)),
{
    let ab = a.merged(b);
    let bc = b.merged(c);
    let p = ab.merged(c);
    let q = a.merged(bc);
    assert(p.messages =~= q.messages);
    assert(p.reactions =~= q.reactions);
    assert forall|x: AuthorId| ab.watermark(x) == max_of(a.watermark(x), b.watermark(x)) by {}
    assert forall|x: AuthorId| bc.watermark(x) == max_of(b.watermark(x), c.watermark(x)) by {}
    assert(p.read =~= q.read);
    if replicas_agree(b, c) {
        assert(bc.messages.dom() =~= b.messages.dom().union(c.messages.dom()));
        clock_over_exists(a.lamport, b.messages);
        clock_over_exists(ab.lamport, c.messages);
        clock_over_exists(a.lamport, bc.messages);
        assert forall|id: MessageId| #[trigger] b.messages.contains_key(id) implies q.lamport
            >= b.messages[id].lamport by {
            assert(bc.messages.contains_key(id));
        }
        assert forall|id: MessageId| #[trigger] c.messages.contains_key(id) implies q.lamport
            >= c.messages[id].lamport by {
            assert(bc.messages.contains_key(id));
        }
        if q.lamport != a.lamport {
            let id = choose|id: MessageId| #[trigger]
                bc.messages.contains_key(id) && q.lamport == bc.messages[id].lamport;
            if b.messages.contains_key(id) {
                assert(ab.lamport >= b.messages[id].lamport);
            } else {
                assert(p.lamport >= c.messages[id].lamport);
            }
        }
        if p.lamport != ab.lamport {
            let id = choose|id: MessageId| #[trigger]
                c.messages.contains_key(id) && p.lamport == c.messages[id].lamport;
            assert(q.lamport >= p.lamport);
        } else if ab.lamport != a.lamport {
            let id = choose|id: MessageId| #[trigger]
                b.messages.contains_key(id) && ab.lamport == b.messages[id].lamport;
            assert(q.lamport >= p.lamport);
        }
        assert(p =~= q);
    }
}

/// Merging is idempotent: a replica that merges itself does not change, and
/// merging the same replica again changes nothing.
pub proof fn merge_is_idempotent(a: ConversationModel, b: ConversationModel)
    requires
        a.wf(),
        b.wf(),
    ensures
        a.merged(a) == a,
        a.merged(b).merged(b) == a.merged(b),
{
    clock_over_unique(a.lamport, a.messages, a.lamport);
    assert(a.merged(a) =~= a);
    let p = a.merged(b);
    clock_over_exists(a.lamport, b.messages);
    assert(is_clock_over(p.lamport, b.messages, p.lamport));
    clock_over_unique(p.lamport, b.messages, p.lamport);
    assert forall|x: AuthorId| p.watermark(x) == max_of(a.watermark(x), b.watermark(x)) by {}
    assert(p.merged(b) =~= p);
}

/// Merging keeps a conversation well formed and loses nothing.
pub proof fn merge_loses_nothing(a: ConversationModel, b: ConversationModel)
    requires
        a.wf(),
        b.wf(),
    ensures
        a.merged(b).wf(),
        forall|id: MessageId| #[trigger]
            a.messages.contains_key(id) ==> a.merged(b).messages.contains_key(id)
                && a.merged(b).messages[id] == a.messages[id],
        forall|id: MessageId| #[trigger]
            b.messages.contains_key(id) ==> a.merged(b).messages.contains_key(id),
        a.reactions.subset_of(a.merged(b).reactions),
        b.reactions.subset_of(a.merged(b).reactions),
        forall|x: AuthorId|
            a.merged(b).watermark(x) >= a.watermark(x) && #[trigger] a.merged(b).watermark(x)
                >= b.watermark(x),
        a.merged(b).lamport >= a.lamport,
{
    let p = a.merged(b);
    assert(p.messages.dom() =~= a.messages.dom().union(b.messages.dom()));
    assert(p.read.dom() =~= a.read.dom().union(b.read.dom()));
    clock_over_exists(a.lamport, b.messages);
    assert forall|id: MessageId| #[trigger] p.messages.contains_key(id) implies p.messages[id].id
        == id && p.messages[id].lamport <= p.lamport by {
        if a.messages.contains_key(id) {
            assert(a.messages[id].lamport <= a.lamport);
        } else {
            assert(b.messages.contains_key(id));
        }
    }
}

/// A watermark never falls, whatever is recorded, applied or merged; and read
/// marks can be recorded in any order and any number of times.
pub proof fn watermark_is_monotonic(
    s: ConversationModel,
    author: AuthorId,
    lamport: u64,
    other: AuthorId,
    up_to: u64,
    m: Message,
)
    ensures
        s.marked(author, lamport).watermark(author) == max_of(s.watermark(author), lamport),
        other != author ==> s.marked(author, lamport).watermark(other) == s.watermark(other),
        s.marked(author, lamport).marked(other, up_to) == s.marked(other, up_to).marked(
            author,
            lamport,
        ),
        s.marked(author, lamport).marked(author, lamport) == s.marked(author, lamport),
        s.applied(m).watermark(author) == s.watermark(author),
{
    assert(s.marked(author, lamport).marked(other, up_to).read =~= s.marked(other, up_to).marked(
        author,
        lamport,
    ).read);
    assert(s.marked(author, lamport).marked(author, lamport).read =~= s.marked(
        author,
        lamport,
    ).read);
}

/// Reactions can be added in any order and any number of times.
pub proof fn reactions_commute(s: ConversationModel, a: ReactionModel, b: ReactionModel)
    ensures
        s.reacted(a).reacted(b) == s.reacted(b).reacted(a),
        s.reacted(a).reacted(a) == s.reacted(a),
{
    assert(s.reacted(a).reacted(b).reactions =~= s.reacted(b).reacted(a).reactions);
    assert(s.reacted(a).reacted(a).reactions =~= s.reacted(a).reactions);
}

/// The order of keys is a strict total order.
pub proof fn key_order_is_total<const N: usize>(keys: Set<[u8; N]>)
    ensures
        transitive(key_order::<N>()),
        total_on(keys, key_order()),
{
    assert forall|a: [u8; N], b: [u8; N], c: [u8; N]| #[trigger] key_order::<N>()(a, b)
        && #[trigger] key_order::<N>()(b, c) implies key_order::<N>()(a, c) by {
        lex_transitive(a@, b@, c@);
    }
    assert forall|a: [u8; N], b: [u8; N]| #[trigger] keys.contains(a) && #[trigger] keys.contains(
        b,
    ) implies a == b || key_order::<N>()(a, b) || key_order::<N>()(b, a) by {
        lex_total(a@, b@);
        if a@ == b@ {
            assert(a =~= b);
        }
    }
}

/// A finite set of keys can be put in ascending order.
pub proof fn in_order_exists<const N: usize>(keys: Set<[u8; N]>)
    requires
        keys.finite(),
    ensures
        ascending(in_order(keys)),
        in_order(keys).to_set() == keys,
        in_order(keys).len() == keys.len(),
{
    key_order_asymmetric::<N>();
    key_order_is_total(keys);
    sorted_members_exist(keys, key_order());
    let s = in_order(keys);
    assert forall|i: int, j: int| 0 <= i < j < s.len() implies lex_lt(
        #[trigger] s[i]@,
        #[trigger] s[j]@,
    ) by {
        assert(key_order::<N>()(s[i], s[j]));
    }
}

/// The messages of a well-formed conversation have one causal order, which
/// holds each of them once.
pub proof fn ordered_exists(s: ConversationModel)
    requires
        s.wf(),
    ensures
        strictly_sorted(s.ordered(), message_order()),
        s.ordered().to_set() == s.messages.values(),
        s.ordered().no_duplicates(),
{
    let values = s.messages.values();
    message_order_asymmetric();
    assert forall|a: Message, b: Message, c: Message| #[trigger] message_order()(a, b)
        && #[trigger] message_order()(b, c) implies message_order()(a, c) by {
        message_lt_transitive(a, b, c);
    }
    assert forall|a: Message, b: Message| #[trigger] values.contains(a) && #[trigger] values.contains(
        b,
    ) implies a == b || message_order()(a, b) || message_order()(b, a) by {
        let i = choose|id: MessageId| #[trigger] s.messages.contains_key(id) && s.messages[id] == a;
        let j = choose|id: MessageId| #[trigger] s.messages.contains_key(id) && s.messages[id] == b;
        if a.lamport == b.lamport {
            lex_total(a.author@, b.author@);
            if a.author@ == b.author@ {
                assert(a.author =~= b.author);
            }
            lex_total(a.id@, b.id@);
            if a.id@ == b.id@ {
                assert(a.id =~= b.id);
            }
        }
    }
    s.messages.lemma_values_len();
    sorted_members_exist(values, message_order());
    crate::order::sorted_no_duplicates(s.ordered(), message_order());
}

/// A new message of our own sorts after everything that this replica holds.
pub proof fn authored_sorts_last(s: ConversationModel, m: Message)
    requires
        s.wf(),
        m.lamport == s.lamport + 1,
        !s.messages.contains_key(m.id),
    ensures
        s.authored(m).wf(),
        s.authored(m).ordered() == s.ordered().push(m),
{
    ordered_exists(s);
    message_order_asymmetric();
    let t = s.authored(m);
    let o = s.ordered();
    let n = o.push(m);
    assert forall|i: int, j: int| 0 <= i < j < n.len() implies message_order()(
        #[trigger] n[i],
        #[trigger] n[j],
    ) by {
        if j == o.len() {
            assert(o.to_set().contains(o[i]));
            let id = choose|id: MessageId| #[trigger]
                s.messages.contains_key(id) && s.messages[id] == o[i];
            assert(o[i].lamport <= s.lamport);
        } else {
            assert(n[i] == o[i] && n[j] == o[j]);
        }
    }
    crate::order::push_to_set(o, m);
    assert forall|x: Message| n.to_set().contains(x) == t.messages.values().contains(x) by {
        if s.messages.values().contains(x) {
            let id = choose|id: MessageId| #[trigger]
                s.messages.contains_key(id) && s.messages[id] == x;
            assert(t.messages.contains_key(id) && t.messages[id] == x);
        }
        if t.messages.values().contains(x) {
            let id = choose|id: MessageId| #[trigger]
                t.messages.contains_key(id) && t.messages[id] == x;
            if id != m.id {
                assert(s.messages.contains_key(id) && s.messages[id] == x);
            }
        }
        assert(t.messages.contains_key(m.id) && t.messages[m.id] == m);
    }
    assert(n.to_set() =~= t.messages.values());
    sorted_is_sorted_members(n, message_order());
}

/// What a delta holds: each message that the other side lacks, once.
pub proof fn delta_content(a: ConversationModel, have: Set<MessageId>)
    requires
        a.wf(),
    ensures
        forall|i: int|
            0 <= i < a.delta(have).len() ==> a.messages.contains_key(
                (#[trigger] a.delta(have)[i]).id,
            ) && !have.contains(a.delta(have)[i].id) && a.messages[a.delta(have)[i].id]
                == a.delta(have)[i],
        forall|id: MessageId| #[trigger]
            a.messages.contains_key(id) && !have.contains(id) ==> exists|i: int|
                0 <= i < a.delta(have).len() && (#[trigger] a.delta(have)[i]).id == id
                    && a.delta(have)[i] == a.messages[id],
        a.messages.dom().subset_of(have) ==> a.delta(have).len() == 0,
{
    let missing = a.messages.dom().difference(have);
    in_order_exists(missing);
    let ids = in_order(missing);
    let d = a.delta(have);
    assert forall|i: int| 0 <= i < d.len() implies a.messages.contains_key((#[trigger] d[i]).id)
        && !have.contains(d[i].id) && a.messages[d[i].id] == d[i] by {
        assert(ids.to_set().contains(ids[i]));
    }
    assert forall|id: MessageId| #[trigger]
        a.messages.contains_key(id) && !have.contains(id) implies exists|i: int|
        0 <= i < d.len() && (#[trigger] d[i]).id == id && d[i] == a.messages[id] by {
        assert(ids.to_set().contains(id));
        let i = choose|i: int| 0 <= i < ids.len() && ids[i] == id;
        assert(d[i] == a.messages[id]);
    }
    if a.messages.dom().subset_of(have) {
        assert(missing =~= Set::empty());
    }
}

/// Delta sync heals: a replica that applies what the other says it lacks holds
/// both histories, keeps its own, and has nothing more to ask for.
pub proof fn delta_heals(a: ConversationModel, b: ConversationModel)
    requires
        a.wf(),
        b.wf(),
    ensures
        ({
            let healed = b.applied_all(a.delta(b.messages.dom()));
            &&& healed.messages == a.messages.union_prefer_right(b.messages)
            &&& healed.reactions == b.reactions
            &&& healed.read == b.read
            &&& a.delta(healed.messages.dom()).len() == 0
        }),
{
    let d = a.delta(b.messages.dom());
    let healed = b.applied_all(d);
    delta_content(a, b.messages.dom());
    applied_all_content(b, d);
    assert forall|id: MessageId| #[trigger]
        healed.messages.contains_key(id) == (a.messages.contains_key(id)
            || b.messages.contains_key(id)) by {
        if healed.messages.contains_key(id) && !b.messages.contains_key(id) {
            let i = choose|i: int| 0 <= i < d.len() && (#[trigger] d[i]).id == id;
            assert(a.messages.contains_key(d[i].id));
        }
        if a.messages.contains_key(id) && !b.messages.contains_key(id) {
            let i = choose|i: int|
                0 <= i < d.len() && (#[trigger] d[i]).id == id && d[i] == a.messages[id];
            assert(d[i].id == id);
        }
    }
    assert forall|id: MessageId| #[trigger] healed.messages.contains_key(id) implies healed.messages[id]
        == a.messages.union_prefer_right(b.messages)[id] by {
        if !b.messages.contains_key(id) {
            let i = choose|i: int|
                0 <= i < d.len() && (#[trigger] d[i]).id == id && healed.messages[id] == d[i];
            assert(a.messages[d[i].id] == d[i]);
        } else {
            assert(healed.messages[id] == b.messages[id]);
        }
    }
    assert(healed.messages =~= a.messages.union_prefer_right(b.messages));
    assert(a.messages.dom().subset_of(healed.messages.dom())) by {
        assert forall|id: MessageId| a.messages.dom().contains(id) implies healed.messages.dom().contains(
            id,
        ) by {
            assert(healed.messages.contains_key(id));
        }
    }
    delta_content(a, healed.messages.dom());
}

/// After a delta in each direction both replicas hold the same message ids,
/// and where they agree the same messages in the same order.
pub proof fn delta_exchange_converges(a: ConversationModel, b: ConversationModel)
    requires
        a.wf(),
        b.wf(),
    ensures
        ({
            let b2 = b.applied_all(a.delta(b.messages.dom()));
            let a2 = a.applied_all(b.delta(a.messages.dom()));
            &&& a2.messages.dom() == b2.messages.dom()
            &&& replicas_agree(a, b) ==> a2.messages == b2.messages && a2.ordered() == b2.ordered()
        }),
{
    delta_heals(a, b);
    delta_heals(b, a);
    let b2 = b.applied_all(a.delta(b.messages.dom()));
    let a2 = a.applied_all(b.delta(a.messages.dom()));
    assert(a2.messages.dom() =~= b2.messages.dom());
    if replicas_agree(a, b) {
        assert(a2.messages =~= b2.messages);
    }
}

/// Recording watermarks leaves the largest per author and touches nothing else.
pub proof fn marked_all_content(s: ConversationModel, marks: Seq<(AuthorId, u64)>)
    ensures
        s.marked_all(marks).messages == s.messages,
        s.marked_all(marks).reactions == s.reactions,
        s.marked_all(marks).lamport == s.lamport,
        forall|a: AuthorId| #[trigger]
            s.marked_all(marks).read.contains_key(a) <==> s.read.contains_key(a) || exists|i: int|
                0 <= i < marks.len() && (#[trigger] marks[i]).0 == a,
        forall|a: AuthorId| #[trigger] s.marked_all(marks).watermark(a) >= s.watermark(a),
        forall|i: int|
            0 <= i < marks.len() ==> s.marked_all(marks).watermark((#[trigger] marks[i]).0)
                >= marks[i].1,
        forall|a: AuthorId| #[trigger]
            s.marked_all(marks).watermark(a) == s.watermark(a) || exists|i: int|
                0 <= i < marks.len() && (#[trigger] marks[i]).0 == a && marks[i].1 == s.marked_all(
                    marks,
                ).watermark(a),
    decreases marks.len(),
{
    if marks.len() > 0 {
        let init = marks.drop_last();
        let n = marks.len() - 1;
        marked_all_content(s, init);
        let p = s.marked_all(init);
        let q = s.marked_all(marks);
        assert(q == p.marked(marks[n].0, marks[n].1));
        assert forall|a: AuthorId| #[trigger]
            q.read.contains_key(a) <==> s.read.contains_key(a) || exists|i: int|
                0 <= i < marks.len() && (#[trigger] marks[i]).0 == a by {
            if q.read.contains_key(a) && !s.read.contains_key(a) {
                if a == marks[n].0 {
                } else {
                    assert(p.read.contains_key(a));
                    let i = choose|i: int| 0 <= i < init.len() && (#[trigger] init[i]).0 == a;
                    assert(marks[i].0 == a);
                }
            }
            if exists|i: int| 0 <= i < marks.len() && (#[trigger] marks[i]).0 == a {
                let i = choose|i: int| 0 <= i < marks.len() && (#[trigger] marks[i]).0 == a;
                if i < n {
                    assert(init[i].0 == a);
                    assert(p.read.contains_key(a));
                }
            }
            assert(s.read.contains_key(a) ==> p.read.contains_key(a));
        }
        assert forall|a: AuthorId| #[trigger] q.watermark(a) >= s.watermark(a) by {
            assert(p.watermark(a) >= s.watermark(a));
        }
        assert forall|i: int| 0 <= i < marks.len() implies q.watermark((#[trigger] marks[i]).0)
            >= marks[i].1 by {
            if i < n {
                assert(init[i] == marks[i]);
                assert(p.watermark(init[i].0) >= init[i].1);
            }
        }
        assert forall|a: AuthorId| #[trigger]
            q.watermark(a) == s.watermark(a) || exists|i: int|
                0 <= i < marks.len() && (#[trigger] marks[i]).0 == a && marks[i].1 == q.watermark(
                    a,
                ) by {
            if q.watermark(a) == p.watermark(a) {
                if p.watermark(a) != s.watermark(a) {
                    let i = choose|i: int|
                        0 <= i < init.len() && (#[trigger] init[i]).0 == a && init[i].1
                            == p.watermark(a);
                    assert(marks[i] == init[i]);
                }
            } else {
                assert(marks[n].0 == a && marks[n].1 == q.watermark(a));
            }
        }
    }
}

/// The clock over marks is behind neither the start nor any mark.
pub proof fn clock_over_marks_bounds(start: u64, marks: Seq<(AuthorId, u64)>)
    ensures
        ConversationModel::clock_over_marks(start, marks) >= start,
        forall|i: int|
            0 <= i < marks.len() ==> ConversationModel::clock_over_marks(start, marks) >= (
            #[trigger] marks[i]).1,
        ConversationModel::clock_over_marks(start, marks) == start || exists|i: int|
            0 <= i < marks.len() && (#[trigger] marks[i]).1 == ConversationModel::clock_over_marks(
                start,
                marks,
            ),
    decreases marks.len(),
{
    if marks.len() > 0 {
        let init = marks.drop_last();
        let n = marks.len() - 1;
        clock_over_marks_bounds(start, init);
        let c = ConversationModel::clock_over_marks(start, init);
        let d = ConversationModel::clock_over_marks(start, marks);
        assert forall|i: int| 0 <= i < marks.len() implies d >= (#[trigger] marks[i]).1 by {
            if i < n {
                assert(init[i] == marks[i]);
            }
        }
        if d != start {
            if d == c {
                let i = choose|i: int| 0 <= i < init.len() && (#[trigger] init[i]).1 == c;
                assert(marks[i] == init[i]);
            } else {
                assert(marks[n].1 == d);
            }
        }
    }
}

/// What the snapshot of `c` restores.
pub open spec fn round_trip(c: ConversationModel) -> ConversationModel {
    ConversationModel::restored(
        c.by_id(c.messages.dom()),
        reactions_in_order(c.reactions),
        c.marks(),
    )
}

/// A snapshot restores the messages and their order, the reactions and the
/// watermarks; and the clock resumes behind none of them, so that the next
/// message of our own sorts last and nobody has read it yet.
pub proof fn snapshot_round_trip(c: ConversationModel)
    requires
        c.wf(),
    ensures
        round_trip(c).wf(),
        round_trip(c).messages == c.messages,
        round_trip(c).ordered() == c.ordered(),
        round_trip(c).reactions == c.reactions,
        round_trip(c).read == c.read,
        forall|id: MessageId| #[trigger]
            c.messages.contains_key(id) ==> c.messages[id].lamport <= round_trip(c).lamport,
        forall|a: AuthorId| #[trigger] c.watermark(a) <= round_trip(c).lamport,
        (forall|a: AuthorId| #[trigger] c.watermark(a) <= c.lamport) ==> round_trip(c).lamport
            <= c.lamport,
{
    let e = ConversationModel::empty();
    let ms = c.by_id(c.messages.dom());
    let rs = reactions_in_order(c.reactions);
    let marks = c.marks();
    assert(c.messages.dom().difference(Set::empty()) =~= c.messages.dom());
    assert(ms == c.delta(Set::empty()));
    assert(ms == c.delta(e.messages.dom()));
    delta_heals(c, e);
    let c1 = e.applied_all(ms);
    assert(c1.messages =~= c.messages);
    applied_all_content(e, ms);
    // Reactions.
    reaction_order_asymmetric();
    assert forall|a: ReactionModel, b: ReactionModel, d: ReactionModel| #[trigger] reaction_order()(
        a,
        b,
    ) && #[trigger] reaction_order()(b, d) implies reaction_order()(a, d) by {
        reaction_order_is_total(a, b, d);
    }
    assert forall|a: ReactionModel, b: ReactionModel| #[trigger] c.reactions.contains(a)
        && #[trigger] c.reactions.contains(b) implies a == b || reaction_order()(a, b)
        || reaction_order()(b, a) by {
        reaction_order_is_total(a, b, a);
    }
    sorted_members_exist(c.reactions, reaction_order());
    let c2 = c1.reacted_all(rs);
    assert(c2.reactions =~= c.reactions);
    // Watermarks.
    in_order_exists(c.read.dom());
    let authors = in_order(c.read.dom());
    assert forall|i: int| 0 <= i < authors.len() implies c.read.contains_key(
        #[trigger] authors[i],
    ) by {
        assert(authors.to_set().contains(authors[i]));
    }
    marked_all_content(c2, marks);
    let c3 = c2.marked_all(marks);
    assert forall|a: AuthorId| c3.read.contains_key(a) == c.read.contains_key(a) by {
        if c3.read.contains_key(a) {
            let i = choose|i: int| 0 <= i < marks.len() && (#[trigger] marks[i]).0 == a;
            assert(marks[i].0 == authors[i]);
        }
        if c.read.contains_key(a) {
            assert(authors.to_set().contains(a));
            let i = choose|i: int| 0 <= i < authors.len() && authors[i] == a;
            assert(marks[i].0 == a);
        }
    }
    assert forall|a: AuthorId| c.read.contains_key(a) implies c3.read[a] == c.read[a] by {
        assert(authors.to_set().contains(a));
        let i = choose|i: int| 0 <= i < authors.len() && authors[i] == a;
        assert(marks[i] == (a, c.read[a]));
        assert(c3.watermark(marks[i].0) >= marks[i].1);
        assert(c3.read.contains_key(a));
        if c3.watermark(a) != 0 {
            let j = choose|j: int|
                0 <= j < marks.len() && (#[trigger] marks[j]).0 == a && marks[j].1 == c3.watermark(
                    a,
                );
            assert(marks[j] == (authors[j], c.read[authors[j]]));
        }
    }
    assert(c3.read =~= c.read);
    clock_over_marks_bounds(c3.lamport, marks);
    let r = round_trip(c);
    assert(r.messages == c.messages);
    assert forall|id: MessageId| #[trigger] c.messages.contains_key(id) implies c.messages[id].lamport
        <= r.lamport by {
        assert(c1.messages.contains_key(id));
        let i = choose|i: int|
            0 <= i < ms.len() && (#[trigger] ms[i]).id == id && c1.messages[id] == ms[i];
        assert(c1.lamport >= ms[i].lamport);
    }
    assert forall|a: AuthorId| #[trigger] c.watermark(a) <= r.lamport by {
        if c.read.contains_key(a) {
            assert(authors.to_set().contains(a));
            let i = choose|i: int| 0 <= i < authors.len() && authors[i] == a;
            assert(marks[i] == (a, c.read[a]));
        }
    }
    if forall|a: AuthorId| #[trigger] c.watermark(a) <= c.lamport {
        if r.lamport == c3.lamport {
            if c1.lamport != 0 {
                let i = choose|i: int|
                    0 <= i < ms.len() && c1.lamport == (#[trigger] ms[i]).lamport;
                delta_content(c, e.messages.dom());
                assert(c.messages.contains_key(ms[i].id));
            }
        } else {
            let i = choose|i: int| 0 <= i < marks.len() && (#[trigger] marks[i]).1 == r.lamport;
            assert(marks[i] == (authors[i], c.read[authors[i]]));
            assert(c.watermark(authors[i]) <= c.lamport);
        }
    }
}

} // verus!
