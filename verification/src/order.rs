//! Strictly sorted sequences.

use vstd::prelude::*;

verus! {

/// Each item of `s` stands before all later ones in the order `lt`.
pub open spec fn strictly_sorted<A>(s: Seq<A>, lt: spec_fn(A, A) -> bool) -> bool {
    forall|i: int, j: int| 0 <= i < j < s.len() ==> lt(#[trigger] s[i], #[trigger] s[j])
}

/// The members of a finite set in the order `lt`.
pub open spec fn sorted_members<A>(members: Set<A>, lt: spec_fn(A, A) -> bool) -> Seq<A> {
    choose|s: Seq<A>| strictly_sorted(s, lt) && s.to_set() == members
}

/// No two items stand before each other, so no item stands before itself.
pub open spec fn asymmetric<A>(lt: spec_fn(A, A) -> bool) -> bool {
    forall|a: A, b: A| #[trigger] lt(a, b) ==> !lt(b, a)
}

/// In a strictly sorted sequence no item occurs twice.
pub proof fn sorted_no_duplicates<A>(s: Seq<A>, lt: spec_fn(A, A) -> bool)
    requires
        asymmetric(lt),
        strictly_sorted(s, lt),
    ensures
        s.no_duplicates(),
        s.to_set().finite(),
        s.to_set().len() == s.len(),
{
    assert forall|i: int, j: int| 0 <= i < s.len() && 0 <= j < s.len() && i != j implies s[i]
        != s[j] by {
        if i < j {
            assert(lt(s[i], s[j]));
        } else {
            assert(lt(s[j], s[i]));
        }
    }
    s.unique_seq_to_set();
    vstd::seq_lib::seq_to_set_is_finite(s);
}

/// Strictly sorted sequences with the same members are equal.
pub proof fn sorted_unique<A>(a: Seq<A>, b: Seq<A>, lt: spec_fn(A, A) -> bool)
    requires
        asymmetric(lt),
        strictly_sorted(a, lt),
        strictly_sorted(b, lt),
        a.to_set() == b.to_set(),
    ensures
        a == b,
    decreases a.len(),
{
    sorted_no_duplicates(a, lt);
    sorted_no_duplicates(b, lt);
    assert(a.len() == b.len());
    if a.len() == 0 {
        assert(a =~= b);
    } else {
        let n = a.len() - 1;
        assert(a.to_set().contains(a[n]));
        assert(b.contains(a[n]));
        let p = choose|p: int| 0 <= p < b.len() && b[p] == a[n];
        assert(b.to_set().contains(b[n]));
        assert(a.contains(b[n]));
        let q = choose|q: int| 0 <= q < a.len() && a[q] == b[n];
        if p < n && q < n {
            assert(lt(b[p], b[n]));
            assert(lt(a[q], a[n]));
        }
        assert(a[n] == b[n]);
        let a1 = a.drop_last();
        let b1 = b.drop_last();
        assert forall|k: A| a1.to_set().contains(k) == b1.to_set().contains(k) by {
            if a1.contains(k) {
                let i = choose|i: int| 0 <= i < a1.len() && a1[i] == k;
                assert(a[i] == k);
                assert(a.to_set().contains(k));
                let j = choose|j: int| 0 <= j < b.len() && b[j] == k;
                assert(b1[j] == k);
            }
            if b1.contains(k) {
                let i = choose|i: int| 0 <= i < b1.len() && b1[i] == k;
                assert(b[i] == k);
                assert(b.to_set().contains(k));
                let j = choose|j: int| 0 <= j < a.len() && a[j] == k;
                assert(a1[j] == k);
            }
        }
        assert(a1.to_set() =~= b1.to_set());
        sorted_unique(a1, b1, lt);
        assert(a =~= a1.push(a[n]));
        assert(b =~= b1.push(b[n]));
    }
}

/// A strictly sorted sequence is the sorting of its own members.
pub proof fn sorted_is_sorted_members<A>(s: Seq<A>, lt: spec_fn(A, A) -> bool)
    requires
        asymmetric(lt),
        strictly_sorted(s, lt),
    ensures
        sorted_members(s.to_set(), lt) == s,
{
    let t = sorted_members(s.to_set(), lt);
    assert(strictly_sorted(s, lt) && s.to_set() == s.to_set());
    sorted_unique(t, s, lt);
}

/// Putting an item at its place keeps a sequence strictly sorted and adds the
/// item to its members.
pub proof fn sorted_insert<A>(s: Seq<A>, p: int, x: A, lt: spec_fn(A, A) -> bool)
    requires
        strictly_sorted(s, lt),
        0 <= p <= s.len(),
        forall|j: int| 0 <= j < p ==> lt(#[trigger] s[j], x),
        forall|j: int| p <= j < s.len() ==> lt(x, #[trigger] s[j]),
    ensures
        strictly_sorted(s.insert(p, x), lt),
        s.insert(p, x).to_set() == s.to_set().insert(x),
{
    let t = s.insert(p, x);
    assert forall|i: int, j: int| 0 <= i < j < t.len() implies lt(
        #[trigger] t[i],
        #[trigger] t[j],
    ) by {
        let i0 = if i < p { i } else { i - 1 };
        let j0 = if j < p { j } else { j - 1 };
        if i != p {
            assert(t[i] == s[i0]);
        }
        if j != p {
            assert(t[j] == s[j0]);
        }
    }
    assert forall|k: A| t.to_set().contains(k) == s.to_set().insert(x).contains(k) by {
        if t.contains(k) {
            let i = choose|i: int| 0 <= i < t.len() && t[i] == k;
            let i0 = if i < p { i } else { i - 1 };
            if i != p {
                assert(s[i0] == k);
            }
        }
        if s.contains(k) {
            let i = choose|i: int| 0 <= i < s.len() && s[i] == k;
            let i1 = if i < p { i } else { i + 1 };
            assert(t[i1] == k);
        }
        assert(t[p] == x);
    }
    assert(t.to_set() =~= s.to_set().insert(x));
}

/// A push adds one member.
pub proof fn push_to_set<A>(s: Seq<A>, x: A)
    ensures
        s.push(x).to_set() == s.to_set().insert(x),
{
    let t = s.push(x);
    assert forall|k: A| t.to_set().contains(k) == s.to_set().insert(x).contains(k) by {
        if t.contains(k) {
            let i = choose|i: int| 0 <= i < t.len() && t[i] == k;
            if i < s.len() {
                assert(s[i] == k);
            }
        }
        if s.contains(k) {
            let i = choose|i: int| 0 <= i < s.len() && s[i] == k;
            assert(t[i] == k);
        }
        assert(t[s.len() as int] == x);
    }
    assert(t.to_set() =~= s.to_set().insert(x));
}

/// The items that a sequence of references points to.
pub open spec fn items<A>(s: Seq<&A>) -> Seq<A> {
    s.map_values(|x: &A| *x)
}

/// `lt` chains.
pub open spec fn transitive<A>(lt: spec_fn(A, A) -> bool) -> bool {
    forall|a: A, b: A, c: A| #[trigger] lt(a, b) && #[trigger] lt(b, c) ==> lt(a, c)
}

/// Of two different members of the set, one stands before the other.
pub open spec fn total_on<A>(members: Set<A>, lt: spec_fn(A, A) -> bool) -> bool {
    forall|a: A, b: A| #[trigger]
        members.contains(a) && #[trigger] members.contains(b) ==> a == b || lt(a, b) || lt(b, a)
}

/// There is a place for `x` in a strictly sorted sequence that lacks it.
proof fn place_in_sorted<A>(s: Seq<A>, x: A, lt: spec_fn(A, A) -> bool, n: int) -> (p: int)
    requires
        transitive(lt),
        strictly_sorted(s, lt),
        0 <= n <= s.len(),
        forall|j: int| 0 <= j < s.len() ==> lt(#[trigger] s[j], x) || lt(x, s[j]),
        forall|j: int| 0 <= j < n ==> lt(#[trigger] s[j], x),
    ensures
        0 <= p <= s.len(),
        forall|j: int| 0 <= j < p ==> lt(#[trigger] s[j], x),
        forall|j: int| p <= j < s.len() ==> lt(x, #[trigger] s[j]),
    decreases s.len() - n,
{
    if n == s.len() {
        n
    } else if lt(s[n], x) {
        place_in_sorted(s, x, lt, n + 1)
    } else {
        assert forall|j: int| n <= j < s.len() implies lt(x, #[trigger] s[j]) by {
            if n < j {
                assert(lt(s[n], s[j]));
            }
        }
        n
    }
}

/// A finite set on which the order is total can be sorted.
pub proof fn sorted_members_exist<A>(members: Set<A>, lt: spec_fn(A, A) -> bool)
    requires
        members.finite(),
        asymmetric(lt),
        transitive(lt),
        total_on(members, lt),
    ensures
        strictly_sorted(sorted_members(members, lt), lt),
        sorted_members(members, lt).to_set() == members,
        sorted_members(members, lt).len() == members.len(),
    decreases members.len(),
{
    if members.len() == 0 {
        let s = Seq::<A>::empty();
        assert(s.to_set() =~= members);
        assert(strictly_sorted(s, lt));
    } else {
        let x = members.choose();
        let rest = members.remove(x);
        sorted_members_exist(rest, lt);
        let t = sorted_members(rest, lt);
        assert forall|j: int| 0 <= j < t.len() implies lt(#[trigger] t[j], x) || lt(x, t[j]) by {
            assert(t.to_set().contains(t[j]));
            assert(members.contains(t[j]) && members.contains(x));
        }
        let p = place_in_sorted(t, x, lt, 0);
        sorted_insert(t, p, x, lt);
        assert(rest.insert(x) =~= members);
        assert(t.insert(p, x).to_set() == members);
    }
    sorted_no_duplicates(sorted_members(members, lt), lt);
}

/// One more item in a filtered prefix.
pub proof fn filter_step<A>(s: Seq<A>, i: int, pred: spec_fn(A) -> bool)
    requires
        0 <= i < s.len(),
    ensures
        s.take(i + 1).filter(pred) == if pred(s[i]) {
            s.take(i).filter(pred).push(s[i])
        } else {
            s.take(i).filter(pred)
        },
{
    reveal(Seq::filter);
    assert(s.take(i + 1).drop_last() =~= s.take(i));
    assert(s.take(i + 1).last() == s[i]);
}

/// Nothing is left of an empty prefix.
pub proof fn filter_start<A>(s: Seq<A>, pred: spec_fn(A) -> bool)
    ensures
        s.take(0).filter(pred) == Seq::<A>::empty(),
{
    reveal(Seq::filter);
    assert(s.take(0).filter(pred) =~= Seq::<A>::empty());
}

/// One more item in a mapped prefix.
pub proof fn map_step<A, B>(s: Seq<A>, i: int, f: spec_fn(A) -> B)
    requires
        0 <= i < s.len(),
    ensures
        s.take(i + 1).map_values(f) == s.take(i).map_values(f).push(f(s[i])),
{
    assert(s.take(i + 1).map_values(f) =~= s.take(i).map_values(f).push(f(s[i])));
}

/// What a filter leaves: the items that match, and each as often as before.
pub proof fn filter_content<A>(s: Seq<A>, pred: spec_fn(A) -> bool)
    ensures
        forall|x: A| #[trigger] s.filter(pred).contains(x) <==> s.contains(x) && pred(x),
        s.no_duplicates() ==> s.filter(pred).no_duplicates(),
    decreases s.len(),
{
    reveal(Seq::filter);
    let f = s.filter(pred);
    if s.len() > 0 {
        let rest = s.drop_last();
        let kept = rest.filter(pred);
        filter_content(rest, pred);
        assert(s =~= rest.push(s.last()));
        assert forall|x: A| #[trigger] f.contains(x) <==> s.contains(x) && pred(x) by {
            push_to_set(rest, s.last());
            push_to_set(kept, s.last());
            assert(s.contains(x) == s.to_set().contains(x));
            assert(rest.contains(x) == rest.to_set().contains(x));
            assert(kept.contains(x) == kept.to_set().contains(x));
            assert(f.contains(x) == f.to_set().contains(x));
        }
        if s.no_duplicates() {
            assert forall|i: int| 0 <= i < rest.len() implies rest[i] != s.last() by {
                assert(s[i] != s[s.len() - 1]);
            }
            assert(!rest.contains(s.last()));
            assert(!kept.contains(s.last()));
            assert forall|i: int, j: int| 0 <= i < f.len() && 0 <= j < f.len() && i
                != j implies f[i] != f[j] by {
                if pred(s.last()) {
                    assert(f == kept.push(s.last()));
                    if i == kept.len() {
                        assert(kept.contains(f[j]));
                    } else if j == kept.len() {
                        assert(kept.contains(f[i]));
                    }
                }
            }
        }
    }
}

/// A filter keeps the items in their order.
pub proof fn filter_sorted<A>(s: Seq<A>, pred: spec_fn(A) -> bool, lt: spec_fn(A, A) -> bool)
    requires
        strictly_sorted(s, lt),
    ensures
        strictly_sorted(s.filter(pred), lt),
    decreases s.len(),
{
    reveal(Seq::filter);
    if s.len() > 0 {
        let rest = s.drop_last();
        let kept = rest.filter(pred);
        assert forall|i: int, j: int| 0 <= i < j < rest.len() implies lt(
            #[trigger] rest[i],
            #[trigger] rest[j],
        ) by {
            assert(lt(s[i], s[j]));
        }
        filter_sorted(rest, pred, lt);
        filter_content(rest, pred);
        let f = s.filter(pred);
        assert forall|i: int, j: int| 0 <= i < j < f.len() implies lt(
            #[trigger] f[i],
            #[trigger] f[j],
        ) by {
            if j == kept.len() {
                assert(kept.contains(kept[i]));
                let k = choose|k: int| 0 <= k < rest.len() && rest[k] == kept[i];
                assert(lt(s[k], s[s.len() - 1]));
            } else {
                assert(lt(kept[i], kept[j]));
            }
        }
    }
}

/// What mapping leaves: the image of each item, and distinct images where the
/// items are distinct and no two of them have the same image.
pub proof fn map_content<A, B>(s: Seq<A>, f: spec_fn(A) -> B)
    ensures
        forall|y: B| #[trigger]
            s.map_values(f).contains(y) <==> exists|x: A| s.contains(x) && #[trigger] f(x) == y,
        forall|x: A| #[trigger] s.contains(x) ==> s.map_values(f).contains(f(x)),
        s.no_duplicates() && (forall|a: A, b: A| #[trigger] f(a) == #[trigger] f(b) ==> a == b)
            ==> s.map_values(f).no_duplicates(),
{
    let t = s.map_values(f);
    assert forall|x: A| #[trigger] s.contains(x) implies t.contains(f(x)) by {
        let i = choose|i: int| 0 <= i < s.len() && s[i] == x;
        assert(t[i] == f(x));
    }
    assert forall|y: B| #[trigger] t.contains(y) implies exists|x: A|
        s.contains(x) && #[trigger] f(x) == y by {
        let i = choose|i: int| 0 <= i < t.len() && t[i] == y;
        assert(s.contains(s[i]) && f(s[i]) == y);
    }
    if s.no_duplicates() && (forall|a: A, b: A| #[trigger] f(a) == #[trigger] f(b) ==> a == b) {
        assert forall|i: int, j: int| 0 <= i < t.len() && 0 <= j < t.len() && i != j implies t[i]
            != t[j] by {
            assert(t[i] == f(s[i]) && t[j] == f(s[j]));
        }
    }
}

} // verus!
