//! The pieces of JSON text that signatures are made over.

use crate::bytes::push_bytes;
#[allow(unused_imports)]
use crate::hexid::{hex_digit, hex_value};
use vstd::prelude::*;

verus! {

/// The bytes of a text.
pub open spec fn text(s: Seq<char>) -> Seq<u8> {
    vstd::utf8::encode_utf8(s)
}

/// A number in decimal digits.
pub open spec fn decimal(n: nat) -> Seq<u8>
    decreases n,
{
    if n < 10 {
        seq![(48 + n) as u8]
    } else {
        decimal(n / 10).push((48 + n % 10) as u8)
    }
}

/// Numbers with commas between them.
pub open spec fn numbers(s: Seq<u8>) -> Seq<u8>
    decreases s.len(),
{
    if s.len() == 0 {
        Seq::empty()
    } else if s.len() == 1 {
        decimal(s[0] as nat)
    } else {
        numbers(s.drop_last()) + text(","@) + decimal(s.last() as nat)
    }
}

/// Bytes as a JSON array of numbers, and `null` where there are none.
pub open spec fn json_bytes(s: Option<Seq<u8>>) -> Seq<u8> {
    match s {
        None => text("null"@),
        Some(b) => text("["@) + numbers(b) + text("]"@),
    }
}

/// A character inside a JSON string: the quote, the backslash and the control
/// characters are escaped, the common ones of them by a letter and the others by
/// their number; all else stands as it is.
pub open spec fn escaped_char(c: char) -> Seq<u8> {
    if c == '"' || c == '\\' {
        text(seq!['\\', c])
    } else if c as u32 == 8 {
        text("\\b"@)
    } else if c as u32 == 9 {
        text("\\t"@)
    } else if c as u32 == 10 {
        text("\\n"@)
    } else if c as u32 == 12 {
        text("\\f"@)
    } else if c as u32 == 13 {
        text("\\r"@)
    } else if (c as u32) < 32 {
        text("\\u00"@) + text(seq![hex_digit(c as int / 16), hex_digit(c as int % 16)])
    } else {
        text(seq![c])
    }
}

/// A text inside a JSON string.
pub open spec fn escaped(s: Seq<char>) -> Seq<u8>
    decreases s.len(),
{
    if s.len() == 0 {
        Seq::empty()
    } else {
        escaped(s.drop_last()) + escaped_char(s.last())
    }
}

/// A text as a quoted and escaped JSON string.
pub open spec fn json_string(s: Seq<char>) -> Seq<u8> {
    text("\""@) + escaped(s) + text("\""@)
}

/// `serde_json::to_vec` on a string slice: the JSON string. Writing a string to
/// memory cannot fail.
#[verifier::external_body]
pub(crate) fn quote(s: &str) -> (r: Vec<u8>)
    ensures
        r@ == json_string(s@),
{
    serde_json::to_vec(s).expect("a string is valid JSON")
}

/// Writes a number in decimal digits.
pub fn decimal_of(n: u64) -> (r: Vec<u8>)
    ensures
        r@ == decimal(n as nat),
    decreases n,
{
    if n < 10 {
        let mut r: Vec<u8> = Vec::new();
        r.push(48 + n as u8);
        assert(r@ =~= decimal(n as nat));
        r
    } else {
        let mut r = decimal_of(n / 10);
        r.push(48 + (n % 10) as u8);
        r
    }
}

/// Appends a text.
pub fn push_text(out: &mut Vec<u8>, s: &str)
    ensures
        final(out)@ == old(out)@ + text(s@),
{
    push_bytes(out, s.as_bytes());
}

/// Writes bytes as a JSON array of numbers, and `null` where there are none.
pub fn json_bytes_of(bytes: Option<&Vec<u8>>) -> (r: Vec<u8>)
    ensures
        r@ == json_bytes(
            match bytes {
                Some(b) => Some(b@),
                None => None,
            },
        ),
{
    let mut out: Vec<u8> = Vec::new();
    match bytes {
        None => {
            push_text(&mut out, "null");
            assert(out@ =~= text("null"@));
        },
        Some(b) => {
            push_text(&mut out, "[");
            assert(out@ =~= text("["@) + numbers(b@.take(0)));
            let mut i: usize = 0;
            while i < b.len()
                invariant
                    i <= b.len(),
                    out@ == text("["@) + numbers(b@.take(i as int)),
                decreases b.len() - i,
            {
                let ghost head = b@.take(i as int);
                let ghost next = b@.take(i + 1);
                assert(next.drop_last() =~= head);
                if i > 0 {
                    push_text(&mut out, ",");
                }
                let digits = decimal_of(b[i] as u64);
                push_bytes(&mut out, digits.as_slice());
                proof {
                    if i > 0 {
                        assert(numbers(next) == numbers(head) + text(","@) + decimal(
                            next.last() as nat,
                        ));
                    } else {
                        assert(numbers(head) =~= Seq::<u8>::empty());
                    }
                    assert(out@ =~= text("["@) + numbers(next));
                }
                i = i + 1;
            }
            assert(b@.take(i as int) =~= b@);
            push_text(&mut out, "]");
        },
    }
    out
}

/// A text in which there is nothing to escape stands in its JSON string as it is.
pub proof fn plain_text_stands_as_it_is(s: Seq<char>)
    requires
        forall|i: int|
            0 <= i < s.len() ==> s[i] as u32 >= 32 && s[i] != '"' && #[trigger] s[i] != '\\',
    ensures
        json_string(s) == text("\""@) + text(s) + text("\""@),
{
    plain_text_is_not_escaped(s);
}

/// A text in which there is nothing to escape is not escaped.
proof fn plain_text_is_not_escaped(s: Seq<char>)
    requires
        forall|i: int|
            0 <= i < s.len() ==> s[i] as u32 >= 32 && s[i] != '"' && #[trigger] s[i] != '\\',
    ensures
        escaped(s) == text(s),
    decreases s.len(),
{
    if s.len() > 0 {
        let init = s.drop_last();
        assert forall|i: int| 0 <= i < init.len() implies init[i] as u32 >= 32 && init[i] != '"'
            && #[trigger] init[i] != '\\' by {
            assert(init[i] == s[i]);
        }
        plain_text_is_not_escaped(init);
        assert(s[s.len() - 1] == s.last());
        crate::unambiguous::text_concat(init, seq![s.last()]);
        assert(init + seq![s.last()] =~= s);
    }
}

/// The number that decimal digits mean.
pub open spec fn digits_value(d: Seq<u8>) -> int
    decreases d.len(),
{
    if d.len() == 0 {
        0
    } else {
        10 * digits_value(d.drop_last()) + (d.last() - 48)
    }
}

/// The digits of a number mean that number, and no more of them are written than
/// are needed.
pub proof fn digits_mean_the_number(n: nat)
    ensures
        digits_value(decimal(n)) == n,
        decimal(n).len() > 0,
        decimal(n).len() > 1 ==> decimal(n)[0] != 48,
        forall|i: int| 0 <= i < decimal(n).len() ==> 48 <= #[trigger] decimal(n)[i] <= 57,
        n > 0 ==> decimal(n)[0] != 48,
    decreases n,
{
    if n < 10 {
        let d = decimal(n);
        assert(d.drop_last() =~= Seq::<u8>::empty());
        assert(digits_value(d.drop_last()) == 0);
    } else {
        digits_mean_the_number(n / 10);
        let d = decimal(n);
        assert(d.drop_last() =~= decimal(n / 10));
        assert(d[0] == decimal(n / 10)[0]);
        assert forall|i: int| 0 <= i < d.len() implies 48 <= #[trigger] d[i] <= 57 by {
            if i < d.len() - 1 {
                assert(d[i] == decimal(n / 10)[i]);
            }
        }
    }
}

/// The code that the letter of a short escape stands for.
pub open spec fn escape_meaning(letter: u8) -> int {
    if letter == 98 {
        8
    } else if letter == 116 {
        9
    } else if letter == 110 {
        10
    } else if letter == 102 {
        12
    } else if letter == 114 {
        13
    } else {
        letter as int
    }
}

/// An escape is short where there is a short one, and else gives the code in
/// hexadecimal digits; it can be read back by the rules of JSON.
pub proof fn escapes_can_be_read_back(c: char)
    ensures
        ({
            let e = escaped_char(c);
            let code = c as int;
            let short = c == '"' || c == '\\' || code == 8 || code == 9 || code == 10 || code == 12
                || code == 13;
            &&& short ==> e.len() == 2 && e[0] == 92 && escape_meaning(e[1]) == code
            &&& !short && code < 32 ==> e.len() == 6 && e[0] == 92 && e[1] == 117 && e[2] == 48
                && e[3] == 48 && hex_value(e[4] as char) == Some(code / 16) && hex_value(
                e[5] as char,
            ) == Some(code % 16)
            &&& !short && code >= 32 ==> e == text(seq![c])
        }),
{
    reveal_strlit("\\b");
    reveal_strlit("\\t");
    reveal_strlit("\\n");
    reveal_strlit("\\f");
    reveal_strlit("\\r");
    reveal_strlit("\\u00");
    vstd::utf8::is_ascii_chars_encode_utf8("\\b"@);
    vstd::utf8::is_ascii_chars_encode_utf8("\\t"@);
    vstd::utf8::is_ascii_chars_encode_utf8("\\n"@);
    vstd::utf8::is_ascii_chars_encode_utf8("\\f"@);
    vstd::utf8::is_ascii_chars_encode_utf8("\\r"@);
    vstd::utf8::is_ascii_chars_encode_utf8("\\u00"@);
    if c == '"' || c == '\\' {
        let s = seq!['\\', c];
        assert(s[0] == '\\' && s[1] == c);
        vstd::utf8::is_ascii_chars_encode_utf8(s);
    } else if (c as u32) < 32 {
        let s = seq![hex_digit(c as int / 16), hex_digit(c as int % 16)];
        assert(s[0] == hex_digit(c as int / 16) && s[1] == hex_digit(c as int % 16));
        assert(vstd::utf8::is_ascii_chars(s));
        vstd::utf8::is_ascii_chars_encode_utf8(s);
    }
}

} // verus!
