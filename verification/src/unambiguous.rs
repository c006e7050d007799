//! The text that a profile is signed as can be read in one way only, so that a
//! signature on one profile is a signature on no other.

#[allow(unused_imports)]
use crate::hexid::hex_digit;
#[allow(unused_imports)]
use crate::identity::{profile_json, ProfileModel};
#[allow(unused_imports)]
use crate::json::{decimal, escaped, escaped_char, json_bytes, json_string, numbers, text};
use vstd::prelude::*;
#[allow(unused_imports)]
use vstd::utf8::is_ascii_chars;

verus! {

/// Different profiles are signed as different texts: whoever changes anything in
/// a profile needs another signature.
pub proof fn profiles_are_signed_as_they_are(p: ProfileModel, q: ProfileModel)
    ensures
        profile_json(p) == profile_json(q) <==> p == q,
{
    if profile_json(p) == profile_json(q) {
        profile_text(p);
        profile_text(q);
        vstd::utf8::encode_utf8_decode_utf8(whole(p));
        vstd::utf8::encode_utf8_decode_utf8(whole(q));
        profile_parts(p, q);
    }
}

/// Different texts are written as different JSON strings.
pub proof fn strings_are_written_as_they_are(s: Seq<char>, t: Seq<char>)
    ensures
        json_string(s) == json_string(t) <==> s == t,
{
    if json_string(s) == json_string(t) {
        string_text(s);
        string_text(t);
        vstd::utf8::encode_utf8_decode_utf8(quoted(s));
        vstd::utf8::encode_utf8_decode_utf8(quoted(t));
        let none = Seq::<char>::empty();
        assert(quoted(s) + none =~= quoted(s));
        assert(quoted(t) + none =~= quoted(t));
        string_end(s, t, none, none);
    }
}

/// Different bytes are written as different JSON arrays, and none as no array at
/// all.
pub proof fn bytes_are_written_as_they_are(a: Option<Seq<u8>>, b: Option<Seq<u8>>)
    ensures
        json_bytes(a) == json_bytes(b) <==> a == b,
{
    if json_bytes(a) == json_bytes(b) {
        bytes_text(a);
        bytes_text(b);
        vstd::utf8::encode_utf8_decode_utf8(listed(a));
        vstd::utf8::encode_utf8_decode_utf8(listed(b));
        let none = Seq::<char>::empty();
        assert(listed(a) + none =~= listed(a));
        assert(listed(b) + none =~= listed(b));
        list_end(a, b, none, none);
    }
}

/// Different numbers are written with different digits.
pub proof fn numbers_are_written_as_they_are(a: nat, b: nat)
    ensures
        decimal(a) == decimal(b) <==> a == b,
{
    if decimal(a) == decimal(b) {
        number_text(a);
        number_text(b);
        vstd::utf8::encode_utf8_decode_utf8(digits(a));
        vstd::utf8::encode_utf8_decode_utf8(digits(b));
        digits_injective(a, b);
    }
}

/// The characters that stand for one inside a JSON string.
spec fn marked(c: char) -> Seq<char> {
    if c == '"' || c == '\\' {
        seq!['\\', c]
    } else if c as u32 == 8 {
        seq!['\\', 'b']
    } else if c as u32 == 9 {
        seq!['\\', 't']
    } else if c as u32 == 10 {
        seq!['\\', 'n']
    } else if c as u32 == 12 {
        seq!['\\', 'f']
    } else if c as u32 == 13 {
        seq!['\\', 'r']
    } else if (c as u32) < 32 {
        seq!['\\', 'u', '0', '0', hex_digit(c as int / 16), hex_digit(c as int % 16)]
    } else {
        seq![c]
    }
}

/// The characters inside a JSON string.
spec fn inside(s: Seq<char>) -> Seq<char>
    decreases s.len(),
{
    if s.len() == 0 {
        Seq::empty()
    } else {
        inside(s.drop_last()) + marked(s.last())
    }
}

/// A JSON string.
spec fn quoted(s: Seq<char>) -> Seq<char> {
    seq!['"'] + inside(s) + seq!['"']
}

/// The digits of a number.
spec fn digits(n: nat) -> Seq<char>
    decreases n,
{
    if n < 10 {
        seq![(48 + n) as char]
    } else {
        digits(n / 10).push((48 + n % 10) as char)
    }
}

/// Numbers with commas between them.
spec fn row(s: Seq<u8>) -> Seq<char>
    decreases s.len(),
{
    if s.len() == 0 {
        Seq::empty()
    } else if s.len() == 1 {
        digits(s[0] as nat)
    } else {
        row(s.drop_last()) + seq![','] + digits(s.last() as nat)
    }
}

/// A JSON array of numbers, or none.
spec fn listed(s: Option<Seq<u8>>) -> Seq<char> {
    match s {
        None => seq!['n', 'u', 'l', 'l'],
        Some(b) => seq!['['] + row(b) + seq![']'],
    }
}

/// The text of a profile.
spec fn whole(p: ProfileModel) -> Seq<char> {
    "{\"display_name\":"@ + (quoted(p.display_name) + (",\"bio\":"@ + (quoted(p.bio) + (
    ",\"status\":"@ + (quoted(p.status) + (",\"avatar\":"@ + (listed(p.avatar) + (
    ",\"updated_at\":"@ + (digits(p.updated_at as nat) + "}"@)))))))))
}

/// Texts are encoded one after the other.
pub proof fn text_concat(a: Seq<char>, b: Seq<char>)
    ensures
        text(a + b) == text(a) + text(b),
    decreases a.len(),
{
    if a.len() == 0 {
        assert(a + b =~= b);
        assert(text(a) + text(b) =~= text(b));
    } else {
        text_concat(a.drop_first(), b);
        assert((a + b).drop_first() =~= a.drop_first() + b);
        assert(text(a + b) =~= text(a) + text(b));
    }
}

/// What stands for one character is encoded as it is escaped.
proof fn char_text(c: char)
    ensures
        escaped_char(c) == text(marked(c)),
{
    reveal_strlit("\\b");
    reveal_strlit("\\t");
    reveal_strlit("\\n");
    reveal_strlit("\\f");
    reveal_strlit("\\r");
    reveal_strlit("\\u00");
    assert("\\b"@ =~= seq!['\\', 'b']);
    assert("\\t"@ =~= seq!['\\', 't']);
    assert("\\n"@ =~= seq!['\\', 'n']);
    assert("\\f"@ =~= seq!['\\', 'f']);
    assert("\\r"@ =~= seq!['\\', 'r']);
    let last = seq![hex_digit(c as int / 16), hex_digit(c as int % 16)];
    text_concat("\\u00"@, last);
    assert("\\u00"@ + last =~= seq![
        '\\',
        'u',
        '0',
        '0',
        hex_digit(c as int / 16),
        hex_digit(c as int % 16),
    ]);
}

/// The inside of a JSON string is encoded as it is escaped.
proof fn inside_text(s: Seq<char>)
    ensures
        escaped(s) == text(inside(s)),
    decreases s.len(),
{
    if s.len() > 0 {
        inside_text(s.drop_last());
        char_text(s.last());
        text_concat(inside(s.drop_last()), marked(s.last()));
    }
}

/// A JSON string is encoded as it is written.
proof fn string_text(s: Seq<char>)
    ensures
        json_string(s) == text(quoted(s)),
{
    inside_text(s);
    reveal_strlit("\"");
    assert("\""@ =~= seq!['"']);
    text_concat(seq!['"'] + inside(s), seq!['"']);
    text_concat(seq!['"'], inside(s));
}

/// Digits are encoded as they are written.
proof fn number_text(n: nat)
    ensures
        decimal(n) == text(digits(n)),
        forall|i: int| 0 <= i < digits(n).len() ==> '0' <= #[trigger] digits(n)[i] <= '9',
        digits(n).len() > 0,
        digits(n).len() == 1 <==> n < 10,
    decreases n,
{
    if n >= 10 {
        number_text(n / 10);
    }
    let d = digits(n);
    assert forall|i: int| 0 <= i < d.len() implies '0' <= #[trigger] d[i] <= '9' by {
        if n >= 10 && i < d.len() - 1 {
            assert(d[i] == digits(n / 10)[i]);
        }
    }
    let last = seq![(48 + n % 10) as char];
    assert(is_ascii_chars(last));
    vstd::utf8::is_ascii_chars_encode_utf8(last);
    assert(text(last) =~= seq![(48 + n % 10) as u8]);
    if n >= 10 {
        text_concat(digits(n / 10), last);
        assert(digits(n / 10) + last =~= d);
        assert(decimal(n) =~= decimal(n / 10) + seq![(48 + n % 10) as u8]);
    } else {
        assert(d =~= last);
    }
}

/// A row of numbers is encoded as it is written.
proof fn row_text(s: Seq<u8>)
    ensures
        numbers(s) == text(row(s)),
    decreases s.len(),
{
    reveal_strlit(",");
    assert(","@ =~= seq![',']);
    if s.len() == 1 {
        number_text(s[0] as nat);
    } else if s.len() > 1 {
        row_text(s.drop_last());
        number_text(s.last() as nat);
        text_concat(row(s.drop_last()) + seq![','], digits(s.last() as nat));
        text_concat(row(s.drop_last()), seq![',']);
    }
}

/// A list of numbers is encoded as it is written.
proof fn bytes_text(s: Option<Seq<u8>>)
    ensures
        json_bytes(s) == text(listed(s)),
{
    reveal_strlit("null");
    reveal_strlit("[");
    reveal_strlit("]");
    assert("null"@ =~= seq!['n', 'u', 'l', 'l']);
    assert("["@ =~= seq!['[']);
    assert("]"@ =~= seq![']']);
    if let Some(b) = s {
        row_text(b);
        text_concat(seq!['['] + row(b), seq![']']);
        text_concat(seq!['['], row(b));
    }
}

/// A profile is encoded as it is written.
proof fn profile_text(p: ProfileModel)
    ensures
        profile_json(p) == text(whole(p)),
{
    let t9 = digits(p.updated_at as nat) + "}"@;
    let t8 = ",\"updated_at\":"@ + t9;
    let t7 = listed(p.avatar) + t8;
    let t6 = ",\"avatar\":"@ + t7;
    let t5 = quoted(p.status) + t6;
    let t4 = ",\"status\":"@ + t5;
    let t3 = quoted(p.bio) + t4;
    let t2 = ",\"bio\":"@ + t3;
    let t1 = quoted(p.display_name) + t2;
    string_text(p.display_name);
    string_text(p.bio);
    string_text(p.status);
    bytes_text(p.avatar);
    number_text(p.updated_at as nat);
    text_concat("{\"display_name\":"@, t1);
    text_concat(quoted(p.display_name), t2);
    text_concat(",\"bio\":"@, t3);
    text_concat(quoted(p.bio), t4);
    text_concat(",\"status\":"@, t5);
    text_concat(quoted(p.status), t6);
    text_concat(",\"avatar\":"@, t7);
    text_concat(listed(p.avatar), t8);
    text_concat(",\"updated_at\":"@, t9);
    text_concat(digits(p.updated_at as nat), "}"@);
    let l1 = text("{\"display_name\":"@) + json_string(p.display_name);
    let l2 = l1 + text(",\"bio\":"@);
    let l3 = l2 + json_string(p.bio);
    let l4 = l3 + text(",\"status\":"@);
    let l5 = l4 + json_string(p.status);
    let l6 = l5 + text(",\"avatar\":"@);
    let l7 = l6 + json_bytes(p.avatar);
    let l8 = l7 + text(",\"updated_at\":"@);
    let n = decimal(p.updated_at as nat);
    assert(profile_json(p) == l8 + n + text("}"@));
    regroup(l8, n, text("}"@));
    regroup(l7, text(",\"updated_at\":"@), text(t9));
    regroup(l6, json_bytes(p.avatar), text(t8));
    regroup(l5, text(",\"avatar\":"@), text(t7));
    regroup(l4, json_string(p.status), text(t6));
    regroup(l3, text(",\"status\":"@), text(t5));
    regroup(l2, json_string(p.bio), text(t4));
    regroup(l1, text(",\"bio\":"@), text(t3));
    regroup(text("{\"display_name\":"@), json_string(p.display_name), text(t2));
}

/// Three texts one after the other can be grouped either way.
proof fn regroup(a: Seq<u8>, b: Seq<u8>, c: Seq<u8>)
    ensures
        a + b + c == a + (b + c),
{
    assert(a + b + c =~= a + (b + c));
}

/// Behind the same beginning stands the same.
proof fn same_rest(a: Seq<char>, r: Seq<char>, u: Seq<char>)
    requires
        a + r == a + u,
    ensures
        r == u,
{
    assert((a + r).skip(a.len() as int) =~= r);
    assert((a + u).skip(a.len() as int) =~= u);
}

/// What comes before the first character that does not match is the same.
proof fn same_run(
    a: Seq<char>,
    b: Seq<char>,
    r: Seq<char>,
    u: Seq<char>,
    pred: spec_fn(char) -> bool,
)
    requires
        a + r == b + u,
        forall|i: int| 0 <= i < a.len() ==> pred(#[trigger] a[i]),
        forall|i: int| 0 <= i < b.len() ==> pred(#[trigger] b[i]),
        r.len() > 0,
        u.len() > 0,
        !pred(r[0]),
        !pred(u[0]),
    ensures
        a == b,
        r == u,
{
    let s = a + r;
    assert(s[a.len() as int] == r[0]);
    assert((b + u)[b.len() as int] == u[0]);
    if a.len() < b.len() {
        assert((b + u)[a.len() as int] == b[a.len() as int]);
    } else if b.len() < a.len() {
        assert(s[b.len() as int] == a[b.len() as int]);
    }
    assert(s.take(a.len() as int) =~= a);
    assert((b + u).take(b.len() as int) =~= b);
    same_rest(a, r, u);
}

/// What stands for one character tells which it is, and where it ends.
proof fn char_end(c: char, d: char, r: Seq<char>, u: Seq<char>)
    requires
        marked(c) + r == marked(d) + u,
    ensures
        c == d,
        r == u,
{
    let s = marked(c) + r;
    let t = marked(d) + u;
    let m = marked(c);
    let n = marked(d);
    assert(s[0] == m[0] && t[0] == n[0]);
    if m.len() > 1 {
        assert(s[1] == m[1]);
    }
    if n.len() > 1 {
        assert(t[1] == n[1]);
    }
    if m.len() > 2 {
        assert(s[4] == m[4] && s[5] == m[5]);
    }
    if n.len() > 2 {
        assert(t[4] == n[4] && t[5] == n[5]);
    }
    assert(m.len() == n.len());
    assert(c == d);
    same_rest(m, r, u);
}

/// The inside of a string starts with what stands for its first character.
proof fn inside_first(s: Seq<char>)
    requires
        s.len() > 0,
    ensures
        inside(s) == marked(s[0]) + inside(s.drop_first()),
    decreases s.len(),
{
    if s.len() == 1 {
        assert(s.drop_last() =~= Seq::<char>::empty());
        assert(s.drop_first() =~= Seq::<char>::empty());
        assert(inside(s) =~= marked(s[0]) + inside(s.drop_first()));
    } else {
        let init = s.drop_last();
        inside_first(init);
        assert(init[0] == s[0]);
        assert(init.drop_first() =~= s.drop_first().drop_last());
        assert(s.drop_first().last() == s.last());
        assert(inside(s) =~= marked(s[0]) + inside(s.drop_first()));
    }
}

/// The inside of a string tells where it ends.
proof fn inside_end(s: Seq<char>, t: Seq<char>, r: Seq<char>, u: Seq<char>)
    requires
        inside(s) + (seq!['"'] + r) == inside(t) + (seq!['"'] + u),
    ensures
        s == t,
        r == u,
    decreases s.len(),
{
    let x = seq!['"'] + r;
    let y = seq!['"'] + u;
    assert(x[0] == '"' && y[0] == '"');
    if s.len() > 0 {
        inside_first(s);
        assert((inside(s) + x)[0] == marked(s[0])[0]);
        assert(inside(s) + x =~= marked(s[0]) + (inside(s.drop_first()) + x));
    } else {
        assert(inside(s) + x =~= x);
    }
    if t.len() > 0 {
        inside_first(t);
        assert((inside(t) + y)[0] == marked(t[0])[0]);
        assert(inside(t) + y =~= marked(t[0]) + (inside(t.drop_first()) + y));
    } else {
        assert(inside(t) + y =~= y);
    }
    if s.len() > 0 && t.len() > 0 {
        char_end(s[0], t[0], inside(s.drop_first()) + x, inside(t.drop_first()) + y);
        inside_end(s.drop_first(), t.drop_first(), r, u);
        assert(s =~= seq![s[0]] + s.drop_first());
        assert(t =~= seq![t[0]] + t.drop_first());
    } else if s.len() == 0 && t.len() == 0 {
        assert(s =~= t);
        same_rest(seq!['"'], r, u);
    }
}

/// A string tells where it ends.
proof fn string_end(s: Seq<char>, t: Seq<char>, r: Seq<char>, u: Seq<char>)
    requires
        quoted(s) + r == quoted(t) + u,
    ensures
        s == t,
        r == u,
{
    let a = inside(s) + (seq!['"'] + r);
    let b = inside(t) + (seq!['"'] + u);
    assert(quoted(s) + r =~= seq!['"'] + a);
    assert(quoted(t) + u =~= seq!['"'] + b);
    same_rest(seq!['"'], a, b);
    inside_end(s, t, r, u);
}

/// Digits tell which number they are.
proof fn digits_injective(a: nat, b: nat)
    requires
        digits(a) == digits(b),
    ensures
        a == b,
    decreases a,
{
    number_text(a);
    number_text(b);
    let x = digits(a);
    let y = digits(b);
    let c = (48 + a % 10) as char;
    let d = (48 + b % 10) as char;
    assert(x.last() == c) by {
        if a < 10 {
            assert(a % 10 == a);
        }
    }
    assert(y.last() == d) by {
        if b < 10 {
            assert(b % 10 == b);
        }
    }
    assert(c as int == 48 + a % 10);
    assert(d as int == 48 + b % 10);
    assert(a == 10 * (a / 10) + a % 10);
    assert(b == 10 * (b / 10) + b % 10);
    if a >= 10 {
        assert(x.drop_last() =~= digits(a / 10));
        assert(y.drop_last() =~= digits(b / 10));
        digits_injective(a / 10, b / 10);
    }
}

/// A row of numbers is made of digits and commas, and starts with a digit.
proof fn row_made_of(s: Seq<u8>)
    ensures
        forall|i: int|
            0 <= i < row(s).len() ==> '0' <= #[trigger] row(s)[i] <= '9' || row(s)[i] == ',',
        row(s).len() == 0 <==> s.len() == 0,
    decreases s.len(),
{
    if s.len() == 1 {
        number_text(s[0] as nat);
    } else if s.len() > 1 {
        row_made_of(s.drop_last());
        number_text(s.last() as nat);
        let a = row(s.drop_last());
        let d = digits(s.last() as nat);
        assert forall|i: int| 0 <= i < row(s).len() implies '0' <= #[trigger] row(s)[i] <= '9'
            || row(s)[i] == ',' by {
            if i < a.len() {
                assert(row(s)[i] == a[i]);
            } else if i > a.len() {
                assert(row(s)[i] == d[i - a.len() - 1]);
            }
        }
    }
}

/// A row of numbers tells which they are.
proof fn row_injective(s: Seq<u8>, t: Seq<u8>)
    requires
        row(s) == row(t),
    ensures
        s == t,
    decreases s.len(),
{
    row_made_of(s);
    row_made_of(t);
    if s.len() == 0 {
        assert(s =~= t);
    } else {
        number_text(s.last() as nat);
        number_text(t.last() as nat);
        let d = digits(s.last() as nat);
        let e = digits(t.last() as nat);
        let n = row(s).len() as int;
        // The last number stands behind the last comma.
        if s.len() > 1 {
            assert(row(s)[n - d.len() - 1] == ',');
        }
        if t.len() > 1 {
            assert(row(t)[n - e.len() - 1] == ',');
        }
        assert forall|k: int| 0 <= k < d.len() implies row(s)[n - d.len() + k] == #[trigger] d[k] by {}
        assert forall|k: int| 0 <= k < e.len() implies row(t)[n - e.len() + k] == #[trigger] e[k] by {}
        if s.len() > 1 && e.len() > d.len() {
            assert(e[e.len() - d.len() - 1] == ',');
        }
        if t.len() > 1 && d.len() > e.len() {
            assert(d[d.len() - e.len() - 1] == ',');
        }
        if s.len() == 1 {
            assert(n == d.len());
        }
        if t.len() == 1 {
            assert(n == e.len());
        }
        assert(d.len() == e.len());
        assert forall|k: int| 0 <= k < d.len() implies d[k] == e[k] by {
            assert(row(s)[n - d.len() + k] == d[k]);
            assert(row(t)[n - e.len() + k] == e[k]);
        }
        assert(d =~= e);
        digits_injective(s.last() as nat, t.last() as nat);
        let m = n - d.len() - 1;
        if s.len() > 1 && t.len() > 1 {
            assert(row(s).take(m) =~= row(s.drop_last()));
            assert(row(t).take(m) =~= row(t.drop_last()));
            row_injective(s.drop_last(), t.drop_last());
            assert(s =~= s.drop_last().push(s.last()));
            assert(t =~= t.drop_last().push(t.last()));
        } else {
            assert(s.len() == 1 && t.len() == 1);
            assert(s =~= seq![s.last()]);
            assert(t =~= seq![t.last()]);
        }
    }
}

/// A list of numbers tells where it ends.
proof fn list_end(a: Option<Seq<u8>>, b: Option<Seq<u8>>, r: Seq<char>, u: Seq<char>)
    requires
        listed(a) + r == listed(b) + u,
    ensures
        a == b,
        r == u,
{
    assert((listed(a) + r)[0] == listed(a)[0]);
    assert((listed(b) + u)[0] == listed(b)[0]);
    match (a, b) {
        (Some(x), Some(y)) => {
            let v = row(x) + (seq![']'] + r);
            let w = row(y) + (seq![']'] + u);
            assert(listed(a) + r =~= seq!['['] + v);
            assert(listed(b) + u =~= seq!['['] + w);
            same_rest(seq!['['], v, w);
            row_made_of(x);
            row_made_of(y);
            same_run(
                row(x),
                row(y),
                seq![']'] + r,
                seq![']'] + u,
                |c: char| '0' <= c <= '9' || c == ',',
            );
            same_rest(seq![']'], r, u);
            row_injective(x, y);
        },
        _ => {
            same_rest(listed(a), r, u);
        },
    }
}

/// The text of a profile tells what is in it.
proof fn profile_parts(p: ProfileModel, q: ProfileModel)
    requires
        whole(p) == whole(q),
    ensures
        p == q,
{
    let p9 = digits(p.updated_at as nat) + "}"@;
    let q9 = digits(q.updated_at as nat) + "}"@;
    let p8 = ",\"updated_at\":"@ + p9;
    let q8 = ",\"updated_at\":"@ + q9;
    let p7 = listed(p.avatar) + p8;
    let q7 = listed(q.avatar) + q8;
    let p6 = ",\"avatar\":"@ + p7;
    let q6 = ",\"avatar\":"@ + q7;
    let p5 = quoted(p.status) + p6;
    let q5 = quoted(q.status) + q6;
    let p4 = ",\"status\":"@ + p5;
    let q4 = ",\"status\":"@ + q5;
    let p3 = quoted(p.bio) + p4;
    let q3 = quoted(q.bio) + q4;
    let p2 = ",\"bio\":"@ + p3;
    let q2 = ",\"bio\":"@ + q3;
    let p1 = quoted(p.display_name) + p2;
    let q1 = quoted(q.display_name) + q2;
    same_rest("{\"display_name\":"@, p1, q1);
    string_end(p.display_name, q.display_name, p2, q2);
    same_rest(",\"bio\":"@, p3, q3);
    string_end(p.bio, q.bio, p4, q4);
    same_rest(",\"status\":"@, p5, q5);
    string_end(p.status, q.status, p6, q6);
    same_rest(",\"avatar\":"@, p7, q7);
    list_end(p.avatar, q.avatar, p8, q8);
    same_rest(",\"updated_at\":"@, p9, q9);
    reveal_strlit("}");
    number_text(p.updated_at as nat);
    number_text(q.updated_at as nat);
    same_run(
        digits(p.updated_at as nat),
        digits(q.updated_at as nat),
        "}"@,
        "}"@,
        |c: char| '0' <= c <= '9',
    );
    digits_injective(p.updated_at as nat, q.updated_at as nat);
}

} // verus!
