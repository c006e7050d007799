//! Ids as hexadecimal text.

use crate::bytes::to_array;
use vstd::prelude::*;

verus! {

/// The hexadecimal digit of a number below 16.
pub open spec fn hex_digit(n: int) -> char {
    if n < 10 {
        (48 + n) as char
    } else {
        (87 + n) as char
    }
}

/// The value of a hexadecimal digit of either case.
pub open spec fn hex_value(c: char) -> Option<int> {
    if '0' <= c <= '9' {
        Some(c as int - 48)
    } else if 'a' <= c <= 'f' {
        Some(c as int - 87)
    } else if 'A' <= c <= 'F' {
        Some(c as int - 55)
    } else {
        None
    }
}

/// Bytes as hexadecimal text: two lower-case digits each, the higher first.
pub open spec fn hex_text(bytes: Seq<u8>) -> Seq<char> {
    Seq::new(
        2 * bytes.len(),
        |i: int|
            if i % 2 == 0 {
                hex_digit(bytes[i / 2] as int / 16)
            } else {
                hex_digit(bytes[i / 2] as int % 16)
            },
    )
}

/// A text is an even number of hexadecimal digits.
pub open spec fn is_hex(s: Seq<char>) -> bool {
    &&& s.len() % 2 == 0
    &&& forall|i: int| 0 <= i < s.len() ==> hex_value(#[trigger] s[i]) is Some
}

/// The bytes that hexadecimal text stands for.
pub open spec fn unhex(s: Seq<char>) -> Seq<u8> {
    Seq::new(
        s.len() / 2,
        |i: int| (16 * hex_value(s[2 * i])->0 + hex_value(s[2 * i + 1])->0) as u8,
    )
}

/// The text of the error on a text that is not hexadecimal.
pub uninterp spec fn hex_error(s: Seq<char>) -> Seq<char>;

/// `hex::encode`: the hexadecimal text in lower case.
#[verifier::external_body]
pub(crate) fn hex_of(bytes: &[u8]) -> (r: String)
    ensures
        r@ == hex_text(bytes@),
{
    hex::encode(bytes)
}

/// `hex::decode`: the bytes of an even number of digits of either case, and on
/// any other text the error, whose text is named.
#[verifier::external_body]
fn hex_decode(s: &str) -> (r: Result<Vec<u8>, String>)
    ensures
        match r {
            Ok(bytes) => is_hex(s@) && bytes@ == unhex(s@),
            Err(e) => !is_hex(s@) && e@ == hex_error(s@),
        },
{
    hex::decode(s).map_err(|e| e.to_string())
}

/// `str::strip_prefix`: what follows the prefix, where the text starts with it.
#[verifier::external_body]
pub(crate) fn strip_prefix<'a>(s: &'a str, prefix: &str) -> (r: Option<&'a str>)
    ensures
        match r {
            Some(rest) => s@ == prefix@ + rest@,
            None => !prefix@.is_prefix_of(s@),
        },
{
    s.strip_prefix(prefix)
}

/// Hexadecimal text can be read back.
pub proof fn hex_round_trip(bytes: Seq<u8>)
    ensures
        is_hex(hex_text(bytes)),
        unhex(hex_text(bytes)) == bytes,
{
    let t = hex_text(bytes);
    assert forall|i: int| 0 <= i < t.len() implies hex_value(#[trigger] t[i]) == Some(
        if i % 2 == 0 {
            bytes[i / 2] as int / 16
        } else {
            bytes[i / 2] as int % 16
        },
    ) by {
        let b = bytes[i / 2] as int;
        assert(0 <= b / 16 < 16 && 0 <= b % 16 < 16);
    }
    assert forall|i: int| 0 <= i < bytes.len() implies unhex(t)[i] == bytes[i] by {
        assert((2 * i) / 2 == i && (2 * i) % 2 == 0);
        assert((2 * i + 1) / 2 == i && (2 * i + 1) % 2 == 1);
        assert(hex_value(t[2 * i]) == Some(bytes[i] as int / 16));
        assert(hex_value(t[2 * i + 1]) == Some(bytes[i] as int % 16));
    }
    assert(unhex(t) =~= bytes);
}

/// Different bytes have different hexadecimal texts.
pub proof fn hex_injective(a: Seq<u8>, b: Seq<u8>)
    requires
        hex_text(a) == hex_text(b),
    ensures
        a == b,
{
    hex_round_trip(a);
    hex_round_trip(b);
}

/// Reads an id of `N` bytes: the text of the error on a text that is not
/// hexadecimal, and the given complaint on one of another length.
fn parse_id<const N: usize>(s: &str, complaint: &str) -> (r: Result<[u8; N], String>)
    ensures
        match r {
            Ok(id) => is_hex(s@) && unhex(s@) == id@,
            Err(e) => if is_hex(s@) {
                unhex(s@).len() != N && e@ == complaint@
            } else {
                e@ == hex_error(s@)
            },
        },
{
    let bytes = match hex_decode(s) {
        Ok(bytes) => bytes,
        Err(e) => return Err(e),
    };
    match to_array::<N>(bytes.as_slice()) {
        Some(id) => Ok(id),
        None => Err(complaint.to_owned()),
    }
}

/// A peer id as text.
pub fn hexkey(k: &[u8; 32]) -> (r: String)
    ensures
        r@ == hex_text(k@),
{
    hex_of(k.as_slice())
}

/// A group id as text.
pub fn hexgroup(g: &[u8; 16]) -> (r: String)
    ensures
        r@ == hex_text(g@),
{
    hex_of(g.as_slice())
}

/// Reads a peer id.
pub fn parse_key(s: &str) -> (r: Result<[u8; 32], String>)
    ensures
        match r {
            Ok(id) => is_hex(s@) && unhex(s@) == id@,
            Err(e) => if is_hex(s@) {
                unhex(s@).len() != 32 && e@ == "invalid id length"@
            } else {
                e@ == hex_error(s@)
            },
        },
{
    parse_id::<32>(s, "invalid id length")
}

/// Reads a group id.
pub fn parse_group(s: &str) -> (r: Result<[u8; 16], String>)
    ensures
        match r {
            Ok(id) => is_hex(s@) && unhex(s@) == id@,
            Err(e) => if is_hex(s@) {
                unhex(s@).len() != 16 && e@ == "invalid group id"@
            } else {
                e@ == hex_error(s@)
            },
        },
{
    parse_id::<16>(s, "invalid group id")
}

/// The id of `N` bytes behind a prefix.
pub open spec fn keyed_id(s: Seq<char>, prefix: Seq<char>) -> Option<Seq<u8>> {
    if prefix.is_prefix_of(s) && is_hex(s.skip(prefix.len() as int)) {
        Some(unhex(s.skip(prefix.len() as int)))
    } else {
        None
    }
}

/// Reads the id of `N` bytes behind a prefix.
pub fn parse_keyed_id<const N: usize>(s: &str, prefix: &str) -> (r: Option<[u8; N]>)
    ensures
        match r {
            Some(id) => keyed_id(s@, prefix@) == Some(id@),
            None => keyed_id(s@, prefix@) is None || keyed_id(s@, prefix@)->0.len() != N,
        },
{
    let rest = match strip_prefix(s, prefix) {
        Some(rest) => rest,
        None => return None,
    };
    assert(s@.skip(prefix@.len() as int) =~= rest@);
    assert(prefix@.is_prefix_of(s@)) by {
        assert(s@.subrange(0, prefix@.len() as int) =~= prefix@);
    }
    match hex_decode(rest) {
        Ok(bytes) => to_array::<N>(bytes.as_slice()),
        Err(_) => None,
    }
}

/// The id behind a prefix can be read back.
pub proof fn keyed_id_round_trip(prefix: Seq<char>, id: Seq<u8>)
    ensures
        keyed_id(prefix + hex_text(id), prefix) == Some(id),
{
    let s = prefix + hex_text(id);
    hex_round_trip(id);
    assert(s.skip(prefix.len() as int) =~= hex_text(id));
    assert(s.subrange(0, prefix.len() as int) =~= prefix);
}

/// A hexadecimal text in capital letters.
pub open spec fn capitals(s: Seq<char>) -> Seq<char> {
    s.map_values(
        |c: char|
            if 'a' <= c <= 'f' {
                (c as u32 - 32) as char
            } else {
                c
            },
    )
}

/// Hexadecimal text means the same in small and in capital letters.
pub proof fn hex_is_read_in_either_case(s: Seq<char>)
    ensures
        is_hex(capitals(s)) <==> is_hex(s),
        is_hex(s) ==> unhex(capitals(s)) == unhex(s),
        forall|i: int|
            0 <= i < s.len() && 'A' <= #[trigger] s[i] <= 'F' ==> hex_value(s[i]) is Some,
{
    let t = capitals(s);
    assert forall|i: int| 0 <= i < s.len() implies hex_value(#[trigger] s[i]) == hex_value(t[i]) by {
        let c = s[i];
        if 'a' <= c <= 'f' {
            let d = (c as u32 - 32) as char;
            assert('A' <= d <= 'F');
        }
    }
    if is_hex(t) {
        assert forall|i: int| 0 <= i < s.len() implies hex_value(#[trigger] s[i]) is Some by {
            assert(hex_value(t[i]) is Some);
        }
    }
    if is_hex(s) {
        assert forall|i: int| 0 <= i < t.len() implies hex_value(#[trigger] t[i]) is Some by {
            assert(hex_value(s[i]) is Some);
        }
        assert(unhex(t) =~= unhex(s));
    }
}

/// Hexadecimal text is of digits and small letters, two for each byte.
pub proof fn hex_text_is_small(bytes: Seq<u8>)
    ensures
        hex_text(bytes).len() == 2 * bytes.len(),
        forall|i: int|
            0 <= i < hex_text(bytes).len() ==> '0' <= #[trigger] hex_text(bytes)[i] <= '9' || 'a'
                <= hex_text(bytes)[i] <= 'f',
{
    let t = hex_text(bytes);
    assert forall|i: int| 0 <= i < t.len() implies '0' <= #[trigger] t[i] <= '9' || 'a' <= t[i]
        <= 'f' by {
        let b = bytes[i / 2] as int;
        assert(0 <= b / 16 < 16 && 0 <= b % 16 < 16);
    }
}

} // verus!
