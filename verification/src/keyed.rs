//! A map keyed by fixed-length byte strings and kept in key order.

use crate::bytes::{rank_of, Rank};
#[allow(unused_imports)]
use crate::bytes::{lex_antisymmetric, lex_irreflexive, lex_lt, lex_transitive};
#[allow(unused_imports)]
use crate::order::{
    asymmetric, sorted_is_sorted_members, sorted_members, sorted_no_duplicates, strictly_sorted,
};
use vstd::prelude::*;

verus! {

/// The keys of `s` are in strictly ascending lexicographic order.
pub open spec fn ascending<const N: usize>(s: Seq<[u8; N]>) -> bool {
    forall|i: int, j: int| 0 <= i < j < s.len() ==> lex_lt(#[trigger] s[i]@, #[trigger] s[j]@)
}

/// The ascending order of keys.
pub open spec fn key_order<const N: usize>() -> spec_fn([u8; N], [u8; N]) -> bool {
    |a: [u8; N], b: [u8; N]| lex_lt(a@, b@)
}

/// The members of a finite set of keys in ascending order.
pub open spec fn in_order<const N: usize>(keys: Set<[u8; N]>) -> Seq<[u8; N]> {
    sorted_members(keys, key_order())
}

/// The order of keys is asymmetric.
pub proof fn key_order_asymmetric<const N: usize>()
    ensures
        asymmetric(key_order::<N>()),
{
    assert forall|a: [u8; N], b: [u8; N]| #[trigger] key_order::<N>()(a, b) implies !key_order::<
        N,
    >()(b, a) by {
        lex_antisymmetric(a@, b@);
    }
}

/// An ascending sequence repeats no key and is the ordering of its own members.
pub proof fn ascending_is_in_order<const N: usize>(s: Seq<[u8; N]>)
    requires
        ascending(s),
    ensures
        s.no_duplicates(),
        s.to_set().finite(),
        s.to_set().len() == s.len(),
        in_order(s.to_set()) == s,
{
    key_order_asymmetric::<N>();
    assert(strictly_sorted(s, key_order())) by {
        assert forall|i: int, j: int| 0 <= i < j < s.len() implies key_order::<N>()(
            #[trigger] s[i],
            #[trigger] s[j],
        ) by {
            assert(lex_lt(s[i]@, s[j]@));
        }
    }
    sorted_no_duplicates(s, key_order());
    sorted_is_sorted_members(s, key_order());
}

/// A map from keys of `N` bytes to values.
#[derive(Debug, PartialEq, Eq)]
pub struct ByteMap<const N: usize, V> {
    entries: Vec<([u8; N], V)>,
}

/// The keys of a sequence of entries.
pub closed spec fn keys_of<const N: usize, V>(s: Seq<([u8; N], V)>) -> Seq<[u8; N]> {
    Seq::new(s.len(), |i: int| s[i].0)
}

/// `s` holds an entry for `k`.
pub closed spec fn has_entry<const N: usize, V>(s: Seq<([u8; N], V)>, k: [u8; N]) -> bool {
    exists|i: int| 0 <= i < s.len() && #[trigger] s[i].0 == k
}

/// The position of an entry for `k`.
pub closed spec fn entry_pos<const N: usize, V>(s: Seq<([u8; N], V)>, k: [u8; N]) -> int {
    choose|i: int| 0 <= i < s.len() && #[trigger] s[i].0 == k
}

/// The map that a sequence of entries stands for.
pub closed spec fn map_of<const N: usize, V>(s: Seq<([u8; N], V)>) -> Map<[u8; N], V> {
    Map::new(
        |k: [u8; N]| has_entry(s, k),
        |k: [u8; N]| s[entry_pos(s, k)].1,
    )
}

/// Each entry of an ascending sequence is a pair of its map.
proof fn entry_in_map<const N: usize, V>(s: Seq<([u8; N], V)>, i: int)
    requires
        ascending(keys_of(s)),
        0 <= i < s.len(),
    ensures
        map_of(s).contains_key(s[i].0),
        map_of(s)[s[i].0] == s[i].1,
{
    let k = s[i].0;
    let j = entry_pos(s, k);
    let ks = keys_of(s);
    ascending_is_in_order(ks);
    assert(ks[i] == k && ks[j] == k);
    assert(i == j);
    assert(has_entry(s, k));
}

/// The members of the keys are the domain of the map.
proof fn keys_are_domain<const N: usize, V>(s: Seq<([u8; N], V)>)
    ensures
        keys_of(s).to_set() == map_of(s).dom(),
{
    let ks = keys_of(s);
    assert forall|k: [u8; N]| ks.to_set().contains(k) == map_of(s).dom().contains(k) by {
        if ks.contains(k) {
            let i = choose|i: int| 0 <= i < ks.len() && ks[i] == k;
            assert(s[i].0 == k);
        }
        if has_entry(s, k) {
            let i = choose|i: int| 0 <= i < s.len() && #[trigger] s[i].0 == k;
            assert(ks[i] == k);
        }
    }
    assert(ks.to_set() =~= map_of(s).dom());
}

impl<const N: usize, V> View for ByteMap<N, V> {
    type V = Map<[u8; N], V>;

    closed spec fn view(&self) -> Map<[u8; N], V> {
        map_of(self.entries@)
    }
}

impl<const N: usize, V> ByteMap<N, V> {
    /// The entries are in ascending order of their keys.
    #[verifier::type_invariant]
    pub closed spec fn inv(self) -> bool {
        ascending(keys_of(self.entries@))
    }

    /// A map has finitely many keys, and they can be put in order.
    pub proof fn inv_finite(self)
        requires
            self.inv(),
        ensures
            self@.dom().finite(),
            ascending(in_order(self@.dom())),
            in_order(self@.dom()).to_set() == self@.dom(),
            in_order(self@.dom()).len() == self@.len(),
    {
        keys_are_domain(self.entries@);
        ascending_is_in_order(keys_of(self.entries@));
    }

    /// The empty map.
    pub fn new() -> (r: Self)
        ensures
            r@ == Map::<[u8; N], V>::empty(),
    {
        let r = ByteMap { entries: Vec::new() };
        assert(r@ =~= Map::<[u8; N], V>::empty());
        r
    }

    /// The number of keys.
    pub fn len(&self) -> (r: usize)
        ensures
            self@.dom().finite(),
            r == self@.len(),
            r == in_order(self@.dom()).len(),
    {
        proof {
            use_type_invariant(self);
            let ks = keys_of(self.entries@);
            keys_are_domain(self.entries@);
            ascending_is_in_order(ks);
        }
        self.entries.len()
    }

    /// Where `k` stands, or where it would have to be put.
    fn find(&self, k: &[u8; N]) -> (r: (bool, usize))
        ensures
            r.0 == self@.contains_key(*k),
            r.1 <= self.entries@.len(),
            r.0 ==> r.1 < self.entries@.len() && self.entries@[r.1 as int].0 == *k,
            forall|j: int| 0 <= j < r.1 ==> lex_lt(#[trigger] self.entries@[j].0@, k@),
            !r.0 ==> forall|j: int|
                r.1 <= j < self.entries@.len() ==> lex_lt(k@, #[trigger] self.entries@[j].0@),
    {
        proof {
            use_type_invariant(self);
        }
        let ghost ks = keys_of(self.entries@);
        let mut lo: usize = 0;
        let mut hi: usize = self.entries.len();
        while lo < hi
            invariant
                ks == keys_of(self.entries@),
                ascending(ks),
                lo <= hi <= self.entries@.len(),
                forall|j: int| 0 <= j < lo ==> lex_lt(#[trigger] self.entries@[j].0@, k@),
                forall|j: int|
                    hi <= j < self.entries@.len() ==> lex_lt(
                        k@,
                        #[trigger] self.entries@[j].0@,
                    ),
            decreases hi - lo,
        {
            let mid: usize = lo + (hi - lo) / 2;
            let r = rank_of(self.entries[mid].0.as_slice(), k.as_slice());
            assert(ks[mid as int] == self.entries@[mid as int].0);
            match r {
                Rank::Same => {
                    assert(self.entries@[mid as int].0 =~= *k);
                    assert forall|j: int| 0 <= j < mid implies lex_lt(
                        #[trigger] self.entries@[j].0@,
                        k@,
                    ) by {
                        assert(lex_lt(ks[j]@, ks[mid as int]@));
                    }
                    assert(has_entry(self.entries@, *k));
                    return (true, mid);
                },
                Rank::Before => {
                    assert forall|j: int| 0 <= j < mid + 1 implies lex_lt(
                        #[trigger] self.entries@[j].0@,
                        k@,
                    ) by {
                        if j < mid {
                            assert(lex_lt(ks[j]@, ks[mid as int]@));
                            lex_transitive(ks[j]@, ks[mid as int]@, k@);
                        }
                    }
                    lo = mid + 1;
                },
                Rank::After => {
                    assert forall|j: int| mid <= j < self.entries@.len() implies lex_lt(
                        k@,
                        #[trigger] self.entries@[j].0@,
                    ) by {
                        if mid < j {
                            assert(lex_lt(ks[mid as int]@, ks[j]@));
                            lex_transitive(k@, ks[mid as int]@, ks[j]@);
                        }
                    }
                    hi = mid;
                },
            }
        }
        proof {
            if has_entry(self.entries@, *k) {
                let i = choose|i: int|
                    0 <= i < self.entries@.len() && #[trigger] self.entries@[i].0 == *k;
                lex_irreflexive(k@);
                assert(lex_lt(self.entries@[i].0@, k@) || lex_lt(k@, self.entries@[i].0@));
                assert(false);
            }
        }
        (false, lo)
    }

    /// Whether the map holds `k`.
    pub fn contains(&self, k: &[u8; N]) -> (r: bool)
        ensures
            r == self@.contains_key(*k),
    {
        self.find(k).0
    }

    /// The value at `k`.
    pub fn get(&self, k: &[u8; N]) -> (r: Option<&V>)
        ensures
            match r {
                Some(v) => self@.contains_key(*k) && *v == self@[*k],
                None => !self@.contains_key(*k),
            },
    {
        let (found, i) = self.find(k);
        if found {
            proof {
                use_type_invariant(self);
                entry_in_map(self.entries@, i as int);
            }
            Some(&self.entries[i].1)
        } else {
            None
        }
    }

    /// Puts `v` at `k`, in place of what stood there.
    pub fn insert(&mut self, k: [u8; N], v: V)
        ensures
            final(self)@ == old(self)@.insert(k, v),
    {
        proof {
            use_type_invariant(&*self);
        }
        let (found, i) = self.find(&k);
        let mut entries: Vec<([u8; N], V)> = Vec::new();
        std::mem::swap(&mut entries, &mut self.entries);
        let ghost before = entries@;
        if found {
            entries.set(i, (k, v));
            proof {
                assert(keys_of(entries@) =~= keys_of(before));
            }
        } else {
            entries.insert(i, (k, v));
            proof {
                let ks = keys_of(before);
                let ns = keys_of(entries@);
                assert forall|a: int, b: int| 0 <= a < b < ns.len() implies lex_lt(
                    #[trigger] ns[a]@,
                    #[trigger] ns[b]@,
                ) by {
                    let a0 = if a < i { a } else { a - 1 };
                    let b0 = if b < i { b } else { b - 1 };
                    if a != i {
                        assert(ns[a] == before[a0].0);
                        assert(ks[a0] == before[a0].0);
                    }
                    if b != i {
                        assert(ns[b] == before[b0].0);
                        assert(ks[b0] == before[b0].0);
                    }
                    if a != i && b != i {
                        assert(lex_lt(ks[a0]@, ks[b0]@));
                    }
                }
            }
        }
        proof {
            let m = map_of(before).insert(k, v);
            assert forall|x: [u8; N]| map_of(entries@).contains_key(x) == m.contains_key(x) by {
                if has_entry(entries@, x) {
                    let j = choose|j: int| 0 <= j < entries@.len() && #[trigger] entries@[j].0 == x;
                    if x != k {
                        let j0 = if found || j < i { j } else { j - 1 };
                        assert(before[j0].0 == x);
                    }
                }
                if x == k {
                    assert(entries@[i as int].0 == x);
                } else if has_entry(before, x) {
                    let j = choose|j: int| 0 <= j < before.len() && #[trigger] before[j].0 == x;
                    let j1 = if found || j < i { j } else { j + 1 };
                    assert(entries@[j1].0 == x);
                }
            }
            assert forall|x: [u8; N]| m.contains_key(x) implies map_of(entries@)[x] == m[x] by {
                if x == k {
                    entry_in_map(entries@, i as int);
                } else {
                    let j = choose|j: int| 0 <= j < before.len() && #[trigger] before[j].0 == x;
                    let j1 = if found || j < i { j } else { j + 1 };
                    assert(entries@[j1] == before[j]);
                    entry_in_map(entries@, j1);
                    entry_in_map(before, j);
                }
            }
            assert(map_of(entries@) =~= m);
        }
        self.entries = entries;
    }

    /// Takes the value at `k` out of the map.
    pub fn remove(&mut self, k: &[u8; N]) -> (r: Option<V>)
        ensures
            final(self)@ == old(self)@.remove(*k),
            match r {
                Some(v) => old(self)@.contains_key(*k) && v == old(self)@[*k],
                None => !old(self)@.contains_key(*k),
            },
    {
        proof {
            use_type_invariant(&*self);
        }
        let (found, i) = self.find(k);
        if !found {
            assert(self@ =~= self@.remove(*k));
            return None;
        }
        let mut entries: Vec<([u8; N], V)> = Vec::new();
        std::mem::swap(&mut entries, &mut self.entries);
        let ghost before = entries@;
        let (_, v) = entries.remove(i);
        proof {
            entry_in_map(before, i as int);
            let ks = keys_of(before);
            let ns = keys_of(entries@);
            assert forall|a: int, b: int| 0 <= a < b < ns.len() implies lex_lt(
                #[trigger] ns[a]@,
                #[trigger] ns[b]@,
            ) by {
                let a0 = if a < i { a } else { a + 1 };
                let b0 = if b < i { b } else { b + 1 };
                assert(ns[a] == before[a0].0 && ks[a0] == before[a0].0);
                assert(ns[b] == before[b0].0 && ks[b0] == before[b0].0);
                assert(lex_lt(ks[a0]@, ks[b0]@));
            }
            let m = map_of(before).remove(*k);
            ascending_is_in_order(ks);
            assert forall|x: [u8; N]| map_of(entries@).contains_key(x) == m.contains_key(x) by {
                if has_entry(entries@, x) {
                    let j = choose|j: int| 0 <= j < entries@.len() && #[trigger] entries@[j].0 == x;
                    let j0 = if j < i { j } else { j + 1 };
                    assert(before[j0].0 == x);
                    assert(ks[j0] == x && ks[i as int] == *k);
                }
                if x != *k && has_entry(before, x) {
                    let j = choose|j: int| 0 <= j < before.len() && #[trigger] before[j].0 == x;
                    let j1 = if j < i { j } else { j - 1 };
                    assert(entries@[j1].0 == x);
                }
            }
            assert forall|x: [u8; N]| m.contains_key(x) implies map_of(entries@)[x] == m[x] by {
                let j = choose|j: int| 0 <= j < before.len() && #[trigger] before[j].0 == x;
                let j1 = if j < i { j } else { j - 1 };
                assert(entries@[j1] == before[j]);
                entry_in_map(entries@, j1);
                entry_in_map(before, j);
            }
            assert(map_of(entries@) =~= m);
        }
        self.entries = entries;
        Some(v)
    }

    /// The key at position `i` of the key order.
    pub fn key_at(&self, i: usize) -> (r: [u8; N])
        requires
            i < in_order(self@.dom()).len(),
        ensures
            r == in_order(self@.dom())[i as int],
            self@.contains_key(r),
    {
        proof {
            use_type_invariant(self);
            keys_are_domain(self.entries@);
            ascending_is_in_order(keys_of(self.entries@));
            entry_in_map(self.entries@, i as int);
        }
        self.entries[i].0
    }

    /// The value at position `i` of the key order.
    pub fn value_at(&self, i: usize) -> (r: &V)
        requires
            i < in_order(self@.dom()).len(),
        ensures
            self@.contains_key(in_order(self@.dom())[i as int]),
            *r == self@[in_order(self@.dom())[i as int]],
    {
        proof {
            use_type_invariant(self);
            keys_are_domain(self.entries@);
            ascending_is_in_order(keys_of(self.entries@));
            entry_in_map(self.entries@, i as int);
        }
        &self.entries[i].1
    }

    /// All keys in ascending order.
    pub fn keys(&self) -> (r: Vec<[u8; N]>)
        ensures
            r@ == in_order(self@.dom()),
            ascending(r@),
            r@.to_set() == self@.dom(),
    {
        let n = self.len();
        let mut r: Vec<[u8; N]> = Vec::new();
        let mut i: usize = 0;
        while i < n
            invariant
                i <= n,
                n == in_order(self@.dom()).len(),
                r@ == in_order(self@.dom()).take(i as int),
            decreases n - i,
        {
            r.push(self.key_at(i));
            i = i + 1;
            assert(r@ =~= in_order(self@.dom()).take(i as int));
        }
        proof {
            assert(r@ =~= in_order(self@.dom()));
            use_type_invariant(self);
            keys_are_domain(self.entries@);
            ascending_is_in_order(keys_of(self.entries@));
        }
        r
    }
}

/// A set of keys of `N` bytes.
#[derive(Debug, PartialEq, Eq)]
pub struct ByteSet<const N: usize> {
    map: ByteMap<N, ()>,
}

impl<const N: usize> View for ByteSet<N> {
    type V = Set<[u8; N]>;

    closed spec fn view(&self) -> Set<[u8; N]> {
        self.map@.dom()
    }
}

impl<const N: usize> ByteSet<N> {
    /// The empty set.
    pub fn new() -> (r: Self)
        ensures
            r@ == Set::<[u8; N]>::empty(),
    {
        ByteSet { map: ByteMap::new() }
    }

    /// The number of members.
    pub fn len(&self) -> (r: usize)
        ensures
            self@.finite(),
            r == self@.len(),
            r == in_order(self@).len(),
    {
        self.map.len()
    }

    /// Whether the set has no members.
    pub fn is_empty(&self) -> (r: bool)
        ensures
            r == (self@ == Set::<[u8; N]>::empty()),
    {
        let n = self.map.len();
        proof {
            if n == 0 {
                assert(self@ =~= Set::<[u8; N]>::empty());
            }
        }
        n == 0
    }

    /// Whether `k` is a member.
    pub fn contains(&self, k: &[u8; N]) -> (r: bool)
        ensures
            r == self@.contains(*k),
    {
        self.map.contains(k)
    }

    /// Adds `k` and tells whether it was missing.
    pub fn insert(&mut self, k: [u8; N]) -> (r: bool)
        ensures
            final(self)@ == old(self)@.insert(k),
            r == !old(self)@.contains(k),
    {
        let fresh = !self.map.contains(&k);
        self.map.insert(k, ());
        fresh
    }

    /// Removes `k` and tells whether it was there.
    pub fn remove(&mut self, k: &[u8; N]) -> (r: bool)
        ensures
            final(self)@ == old(self)@.remove(*k),
            r == old(self)@.contains(*k),
    {
        self.map.remove(k).is_some()
    }

    /// The members in ascending order.
    pub fn to_vec(&self) -> (r: Vec<[u8; N]>)
        ensures
            r@ == in_order(self@),
            ascending(r@),
            r@.to_set() == self@,
    {
        self.map.keys()
    }

    /// The set of the keys in `keys`.
    pub fn from_slice(keys: &[[u8; N]]) -> (r: Self)
        ensures
            r@ == keys@.to_set(),
    {
        let mut r = ByteSet::new();
        let mut i: usize = 0;
        while i < keys.len()
            invariant
                i <= keys.len(),
                r@ == keys@.take(i as int).to_set(),
            decreases keys.len() - i,
        {
            let ghost before = keys@.take(i as int);
            r.insert(keys[i]);
            proof {
                let after = keys@.take(i + 1);
                assert(after =~= before.push(keys@[i as int]));
                assert forall|k: [u8; N]| after.to_set().contains(k) == before.to_set().insert(
                    keys@[i as int],
                ).contains(k) by {
                    if after.contains(k) {
                        let j = choose|j: int| 0 <= j < after.len() && after[j] == k;
                        if j < i {
                            assert(before[j] == k);
                        }
                    }
                    if before.contains(k) {
                        let j = choose|j: int| 0 <= j < before.len() && before[j] == k;
                        assert(after[j] == k);
                    }
                    assert(after[i as int] == keys@[i as int]);
                }
                assert(after.to_set() =~= before.to_set().insert(keys@[i as int]));
            }
            i = i + 1;
        }
        proof {
            assert(keys@.take(i as int) =~= keys@);
        }
        r
    }
}

} // verus!
