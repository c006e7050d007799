//! Byte strings and texts: copies, equality, and the lexicographic order of
//! fixed-length byte strings (peer ids, message ids, group ids).

use vstd::prelude::*;

verus! {

/// `a` and `b` agree before position `i`, and there `a` is the smaller one: it
/// either ends or holds the smaller byte.
pub open spec fn smaller_at(a: Seq<u8>, b: Seq<u8>, i: int) -> bool {
    &&& 0 <= i <= a.len()
    &&& i < b.len()
    &&& forall|k: int| 0 <= k < i ==> a[k] == b[k]
    &&& i == a.len() || a[i] < b[i]
}

/// The lexicographic order on byte strings.
pub open spec fn lex_lt(a: Seq<u8>, b: Seq<u8>) -> bool {
    exists|i: int| smaller_at(a, b, i)
}

/// No byte string is smaller than itself.
pub proof fn lex_irreflexive(a: Seq<u8>)
    ensures
        !lex_lt(a, a),
{
}

/// Smaller than smaller is smaller.
pub proof fn lex_transitive(a: Seq<u8>, b: Seq<u8>, c: Seq<u8>)
    requires
        lex_lt(a, b),
        lex_lt(b, c),
    ensures
        lex_lt(a, c),
{
    let i = choose|i: int| smaller_at(a, b, i);
    let j = choose|j: int| smaller_at(b, c, j);
    if i < j {
        assert(smaller_at(a, c, i));
    } else {
        assert(smaller_at(a, c, j));
    }
}

/// Of two byte strings that agree on a common prefix, one is smaller or they
/// are equal.
proof fn lex_total_from(a: Seq<u8>, b: Seq<u8>, n: int)
    requires
        0 <= n <= a.len(),
        n <= b.len(),
        forall|k: int| 0 <= k < n ==> a[k] == b[k],
    ensures
        a == b || lex_lt(a, b) || lex_lt(b, a),
    decreases a.len() - n,
{
    if n == a.len() && n == b.len() {
        assert(a =~= b);
    } else if n == a.len() {
        assert(smaller_at(a, b, n));
    } else if n == b.len() {
        assert(smaller_at(b, a, n));
    } else if a[n] < b[n] {
        assert(smaller_at(a, b, n));
    } else if b[n] < a[n] {
        assert(smaller_at(b, a, n));
    } else {
        lex_total_from(a, b, n + 1);
    }
}

/// Two byte strings are equal or one of them is smaller.
pub proof fn lex_total(a: Seq<u8>, b: Seq<u8>)
    ensures
        a == b || lex_lt(a, b) || lex_lt(b, a),
{
    lex_total_from(a, b, 0);
}

/// Of two byte strings at most one is smaller than the other.
pub proof fn lex_antisymmetric(a: Seq<u8>, b: Seq<u8>)
    requires
        lex_lt(a, b),
    ensures
        !lex_lt(b, a),
        a != b,
{
    if lex_lt(b, a) {
        lex_transitive(a, b, a);
    }
    lex_irreflexive(a);
}

/// Where one byte string stands relative to another.
#[derive(Clone, Copy, Debug, PartialEq, Eq, Structural)]
pub enum Rank {
    Before,
    Same,
    After,
}

/// The position of `a` relative to `b` in lexicographic order.
pub open spec fn rank(a: Seq<u8>, b: Seq<u8>) -> Rank {
    if a == b {
        Rank::Same
    } else if lex_lt(a, b) {
        Rank::Before
    } else {
        Rank::After
    }
}

/// Compares two byte strings.
pub fn rank_of(a: &[u8], b: &[u8]) -> (r: Rank)
    ensures
        r == rank(a@, b@),
        r is After ==> lex_lt(b@, a@),
{
    let mut i: usize = 0;
    while i < a.len() && i < b.len()
        invariant
            i <= a.len(),
            i <= b.len(),
            forall|k: int| 0 <= k < i ==> a@[k] == b@[k],
        decreases a.len() - i,
    {
        if a[i] < b[i] {
            assert(smaller_at(a@, b@, i as int));
            return Rank::Before;
        }
        if b[i] < a[i] {
            assert(smaller_at(b@, a@, i as int));
            proof {
                lex_antisymmetric(b@, a@);
            }
            return Rank::After;
        }
        i = i + 1;
    }
    if i < b.len() {
        assert(smaller_at(a@, b@, i as int));
        Rank::Before
    } else if i < a.len() {
        assert(smaller_at(b@, a@, i as int));
        proof {
            lex_antisymmetric(b@, a@);
        }
        Rank::After
    } else {
        assert(a@ =~= b@);
        Rank::Same
    }
}

/// Whether two byte strings are equal.
pub fn same_bytes(a: &[u8], b: &[u8]) -> (r: bool)
    ensures
        r == (a@ == b@),
{
    match rank_of(a, b) {
        Rank::Same => true,
        _ => false,
    }
}

/// Whether two texts are equal.
pub fn same_text(a: &str, b: &str) -> (r: bool)
    ensures
        r == (a@ == b@),
{
    proof {
        vstd::utf8::encode_utf8_decode_utf8(a@);
        vstd::utf8::encode_utf8_decode_utf8(b@);
    }
    same_bytes(a.as_bytes(), b.as_bytes())
}

/// Whether two keys are equal.
pub fn same_key<const N: usize>(a: &[u8; N], b: &[u8; N]) -> (r: bool)
    ensures
        r == (*a == *b),
{
    let r = same_bytes(a.as_slice(), b.as_slice());
    proof {
        if r {
            assert(*a =~= *b);
        }
    }
    r
}

/// Whether the key `a` is smaller than `b`.
pub fn key_lt<const N: usize>(a: &[u8; N], b: &[u8; N]) -> (r: bool)
    ensures
        r == lex_lt(a@, b@),
{
    proof {
        lex_irreflexive(a@);
        if a@ != b@ {
            lex_total(a@, b@);
        }
    }
    match rank_of(a.as_slice(), b.as_slice()) {
        Rank::Before => true,
        _ => false,
    }
}

/// Appends bytes.
pub fn push_bytes(out: &mut Vec<u8>, bytes: &[u8])
    ensures
        final(out)@ == old(out)@ + bytes@,
{
    let ghost before = out@;
    out.extend_from_slice(bytes);
    assert(out@ =~= before + bytes@);
}

/// A copy of a byte vector.
pub fn copy_bytes(v: &Vec<u8>) -> (r: Vec<u8>)
    ensures
        r@ == v@,
{
    let mut r: Vec<u8> = Vec::new();
    push_bytes(&mut r, v.as_slice());
    assert(r@ =~= v@);
    r
}

/// A slice of `N` bytes as an array.
pub fn to_array<const N: usize>(bytes: &[u8]) -> (r: Option<[u8; N]>)
    ensures
        match r {
            Some(a) => a@ == bytes@,
            None => bytes@.len() != N,
        },
{
    if bytes.len() != N {
        return None;
    }
    let mut out: [u8; N] = [0u8; N];
    let mut i: usize = 0;
    while i < N
        invariant
            i <= N,
            bytes@.len() == N,
            out@.len() == N,
            forall|k: int| 0 <= k < i ==> out@[k] == bytes@[k],
        decreases N - i,
    {
        out[i] = bytes[i];
        i = i + 1;
    }
    assert(out@ =~= bytes@);
    Some(out)
}

/// The first byte in which two byte strings differ decides which is the smaller.
pub proof fn first_difference_decides(a: Seq<u8>, b: Seq<u8>, i: int)
    requires
        0 <= i < a.len(),
        i < b.len(),
        a.take(i) == b.take(i),
        a[i] < b[i],
    ensures
        lex_lt(a, b),
        !lex_lt(b, a),
        rank(a, b) == Rank::Before,
        rank(b, a) == Rank::After,
{
    assert forall|k: int| 0 <= k < i implies a[k] == b[k] by {
        assert(a.take(i)[k] == a[k]);
        assert(b.take(i)[k] == b[k]);
    }
    assert(smaller_at(a, b, i));
    lex_antisymmetric(a, b);
}

/// Of two byte strings of which one goes on where the other ends, the shorter is
/// the smaller; and none is smaller than itself.
pub proof fn beginning_is_smaller(a: Seq<u8>, more: Seq<u8>)
    requires
        more.len() > 0,
    ensures
        lex_lt(a, a + more),
        !lex_lt(a + more, a),
        rank(a, a + more) == Rank::Before,
        rank(a + more, a) == Rank::After,
        rank(a, a) == Rank::Same,
{
    assert(smaller_at(a, a + more, a.len() as int));
    lex_antisymmetric(a, a + more);
}

} // verus!
